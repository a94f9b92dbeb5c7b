use omgpp::wire::{decode, encode, encode_command, encode_message, encode_rpc};
use omgpp::{Frame, NetError};
use protobuf::CodedOutputStream;

fn protobuf_envelope(field: u32, body: &[u8]) -> Vec<u8> {
    let mut out: Vec<u8> = Vec::new();
    {
        let mut os = CodedOutputStream::vec(&mut out);
        os.write_bytes(field, body).unwrap();
        os.flush().unwrap();
    }
    out
}

#[test]
fn message_bytes_exact() {
    let bytes = encode_message(7, b"hi");
    assert_eq!(bytes, vec![0x0a, 0x06, 0x08, 0x07, 0x12, 0x02, b'h', b'i']);
}

#[test]
fn message_bytes_match_protobuf_encoder() {
    let mut body: Vec<u8> = Vec::new();
    {
        let mut os = CodedOutputStream::vec(&mut body);
        os.write_int64(1, -5).unwrap();
        os.write_bytes(2, b"payload").unwrap();
        os.flush().unwrap();
    }
    assert_eq!(encode_message(-5, b"payload"), protobuf_envelope(1, &body));
}

#[test]
fn rpc_bytes_match_protobuf_encoder() {
    let mut body: Vec<u8> = Vec::new();
    {
        let mut os = CodedOutputStream::vec(&mut body);
        os.write_bool(1, true).unwrap();
        os.write_int64(2, 9).unwrap();
        os.write_uint64(3, 123).unwrap();
        os.write_int64(4, i64::MIN).unwrap();
        os.write_bytes(5, b"q").unwrap();
        os.flush().unwrap();
    }
    assert_eq!(encode_rpc(true, 9, 123, i64::MIN, b"q"), protobuf_envelope(2, &body));
}

#[test]
fn command_bytes_match_protobuf_encoder() {
    let mut body: Vec<u8> = Vec::new();
    {
        let mut os = CodedOutputStream::vec(&mut body);
        os.write_string(1, "AUTH").unwrap();
        os.write_uint64(2, 300).unwrap();
        os.write_string(3, "ok").unwrap();
        os.write_string(3, "").unwrap();
        os.write_string(3, "é").unwrap();
        os.flush().unwrap();
    }
    let args = vec!["ok".to_string(), String::new(), "é".to_string()];
    assert_eq!(encode_command("AUTH", 300, &args), protobuf_envelope(3, &body));
}

#[test]
fn default_fields_are_omitted() {
    assert_eq!(encode_message(0, b""), vec![0x0a, 0x00]);
    assert_eq!(encode_rpc(false, 0, 0, 0, b""), vec![0x12, 0x00]);
    assert_eq!(encode_command("", 0, &[]), vec![0x1a, 0x00]);
}

#[test]
fn negative_type_uses_ten_byte_varint() {
    let bytes = encode_message(-1, b"");
    assert_eq!(
        bytes,
        vec![0x0a, 0x0b, 0x08, 0xff, 0xff, 0xff, 0xff, 0xff, 0xff, 0xff, 0xff, 0xff, 0x01]
    );
}

#[test]
fn round_trip_each_variant() {
    let frames = vec![
        Frame::Message { msg_type: i64::MIN, data: vec![0, 1, 2, 255] },
        Frame::Message { msg_type: 0, data: vec![] },
        Frame::Rpc { reliable: true, method_id: -3, request_id: u64::MAX, arg_type: 77, arg_data: vec![9; 300] },
        Frame::Rpc { reliable: false, method_id: 0, request_id: 0, arg_type: 0, arg_data: vec![] },
        Frame::Command { cmd: "RESOURCES".to_string(), request_id: 5, args: vec!["a".to_string(), String::new(), "ü".to_string()] },
        Frame::Command { cmd: String::new(), request_id: 0, args: vec![] },
    ];
    for f in frames {
        let bytes = encode(&f);
        assert_eq!(decode(&bytes), Ok(Some(f)));
    }
}

#[test]
fn empty_envelope_is_ignorable() {
    assert_eq!(decode(&[]), Ok(None));
}

#[test]
fn unknown_fields_are_skipped() {
    // field 4 (varint), field 5 (fixed32), field 6 (fixed64), then a message
    let mut bytes = vec![0x20, 0x96, 0x01, 0x2d, 1, 2, 3, 4, 0x31, 1, 2, 3, 4, 5, 6, 7, 8];
    bytes.extend(encode_message(3, b"z"));
    assert_eq!(decode(&bytes), Ok(Some(Frame::Message { msg_type: 3, data: b"z".to_vec() })));
}

#[test]
fn last_variant_wins() {
    let mut bytes = encode_message(1, b"a");
    bytes.extend(encode_rpc(true, 2, 3, 4, b"b"));
    assert_eq!(
        decode(&bytes),
        Ok(Some(Frame::Rpc { reliable: true, method_id: 2, request_id: 3, arg_type: 4, arg_data: b"b".to_vec() }))
    );
}

#[test]
fn truncated_envelope_fails() {
    assert_eq!(decode(&[0x0a, 0x05, 0x08]), Err(NetError::DecodeFailed));
}

#[test]
fn invalid_utf8_command_fails() {
    // command with cmd = [0xff]
    assert_eq!(decode(&[0x1a, 0x03, 0x0a, 0x01, 0xff]), Err(NetError::DecodeFailed));
}

#[test]
fn overlong_varint_fails() {
    let mut bytes = vec![0x0a, 0x0c, 0x08];
    bytes.extend(vec![0xff; 9]);
    bytes.extend(vec![0x02, 0x00]);
    assert_eq!(decode(&bytes), Err(NetError::DecodeFailed));
}

#[test]
fn field_number_zero_fails() {
    assert_eq!(decode(&[0x00, 0x01]), Err(NetError::DecodeFailed));
}
