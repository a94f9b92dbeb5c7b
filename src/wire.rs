use vstd::prelude::*;
use vstd::utf8::*;
use crate::error::NetError;
use crate::varint::{lemma_varint_read, parse_varint, pow128, push_varint, read_varint, varint};

verus! {

/// One decoded application-level frame: exactly one of the three variants that
/// the envelope can carry.
#[derive(Debug, Clone, PartialEq, Eq)]
pub enum Frame {
    /// An opaque application message tagged with an integer type.
    Message { msg_type: i64, data: Vec<u8> },
    /// A remote procedure call.
    Rpc { reliable: bool, method_id: i64, request_id: u64, arg_type: i64, arg_data: Vec<u8> },
    /// A named command with string arguments.
    Command { cmd: String, request_id: u64, args: Vec<String> },
}

/// Mathematical model of a [`Frame`].
pub enum FrameView {
    Message { msg_type: i64, data: Seq<u8> },
    Rpc { reliable: bool, method_id: i64, request_id: u64, arg_type: i64, arg_data: Seq<u8> },
    Command { cmd: Seq<char>, request_id: u64, args: Seq<Seq<char>> },
}

/// The texts of a list of strings.
pub open spec fn texts(v: Seq<String>) -> Seq<Seq<char>> {
    v.map_values(|a: String| a@)
}

impl View for Frame {
    type V = FrameView;

    open spec fn view(&self) -> FrameView {
        match self {
            Frame::Message { msg_type, data } => FrameView::Message { msg_type: *msg_type, data: data@ },
            Frame::Rpc { reliable, method_id, request_id, arg_type, arg_data } => FrameView::Rpc {
                reliable: *reliable,
                method_id: *method_id,
                request_id: *request_id,
                arg_type: *arg_type,
                arg_data: arg_data@,
            },
            Frame::Command { cmd, request_id, args } => FrameView::Command {
                cmd: cmd@,
                request_id: *request_id,
                args: texts(args@),
            },
        }
    }
}

/// The 64-bit two's-complement pattern of `t`, as an unsigned number.
pub open spec fn bits_of_i64(t: i64) -> nat {
    if t >= 0 {
        t as nat
    } else {
        (t + 0x1_0000_0000_0000_0000) as nat
    }
}

/// The signed number whose 64-bit two's-complement pattern is `v`.
pub open spec fn i64_of_bits(v: nat) -> i64 {
    if v < 0x8000_0000_0000_0000 {
        v as i64
    } else {
        (v - 0x1_0000_0000_0000_0000) as i64
    }
}

/// Executable [`bits_of_i64`].
fn i64_to_bits(t: i64) -> (r: u64)
    ensures
        r as nat == bits_of_i64(t),
{
    if t >= 0 {
        t as u64
    } else {
        ((t + 0x7fff_ffff_ffff_ffff + 1) as u64) + 0x8000_0000_0000_0000u64
    }
}

/// Executable [`i64_of_bits`].
fn bits_to_i64(v: u64) -> (r: i64)
    ensures
        r == i64_of_bits(v as nat),
{
    if v < 0x8000_0000_0000_0000 {
        v as i64
    } else {
        ((v - 0x8000_0000_0000_0000u64) as i64) - 0x7fff_ffff_ffff_ffff - 1
    }
}

// ---------------------------------------------------------------------------
// Encoding (tag-numbered, length-delimited; default scalars are omitted)
// ---------------------------------------------------------------------------

/// A varint field; omitted when the value is zero.
pub open spec fn int_field(tag: nat, v: nat) -> Seq<u8> {
    if v == 0 {
        seq![]
    } else {
        varint(tag) + varint(v)
    }
}

/// A length-delimited field that is always written.
pub open spec fn len_field(tag: nat, b: Seq<u8>) -> Seq<u8> {
    varint(tag) + varint(b.len()) + b
}

/// A length-delimited field; omitted when empty.
pub open spec fn bytes_field(tag: nat, b: Seq<u8>) -> Seq<u8> {
    if b.len() == 0 {
        seq![]
    } else {
        len_field(tag, b)
    }
}

/// A repeated string field: one length-delimited field per element, empty ones included.
pub open spec fn text_list_field(tag: nat, args: Seq<Seq<char>>) -> Seq<u8>
    decreases args.len(),
{
    if args.len() == 0 {
        seq![]
    } else {
        len_field(tag, encode_utf8(args[0])) + text_list_field(tag, args.drop_first())
    }
}

/// Body of an application message: `type` = 1 (int64), `data` = 2 (bytes).
pub open spec fn message_body(msg_type: i64, data: Seq<u8>) -> Seq<u8> {
    int_field(8, bits_of_i64(msg_type)) + bytes_field(18, data)
}

/// Body of an RPC call: `reliable` = 1, `method_id` = 2, `request_id` = 3,
/// `arg_type` = 4, `arg_data` = 5.
pub open spec fn rpc_body(
    reliable: bool,
    method_id: i64,
    request_id: u64,
    arg_type: i64,
    arg_data: Seq<u8>,
) -> Seq<u8> {
    int_field(8, if reliable { 1 } else { 0 }) + int_field(16, bits_of_i64(method_id)) + int_field(
        24,
        request_id as nat,
    ) + int_field(32, bits_of_i64(arg_type)) + bytes_field(42, arg_data)
}

/// Body of a command request: `cmd` = 1 (string), `request_id` = 2, `args` = 3 (repeated string).
pub open spec fn command_body(cmd: Seq<char>, request_id: u64, args: Seq<Seq<char>>) -> Seq<u8> {
    bytes_field(10, encode_utf8(cmd)) + int_field(16, request_id as nat) + text_list_field(26, args)
}

/// The envelope: the populated variant as field 1, 2 or 3.
pub open spec fn encode_frame(f: FrameView) -> Seq<u8> {
    match f {
        FrameView::Message { msg_type, data } => len_field(10, message_body(msg_type, data)),
        FrameView::Rpc { reliable, method_id, request_id, arg_type, arg_data } => len_field(
            18,
            rpc_body(reliable, method_id, request_id, arg_type, arg_data),
        ),
        FrameView::Command { cmd, request_id, args } => len_field(
            26,
            command_body(cmd, request_id, args),
        ),
    }
}

// ---------------------------------------------------------------------------
// Decoding
// ---------------------------------------------------------------------------

/// What follows a field key: a varint value, the bounds of a length-delimited
/// payload, or a fixed-width value that no field of this format uses.
pub enum FieldBody {
    Varint(nat),
    Bytes(int, int),
    Skipped,
}

/// The field at position `i` of `s`: its full key (field number and wire type),
/// its body, and the position after it. Keys must fit in 32 bits and name a
/// field number above zero; group wire types are not accepted.
#[verifier::opaque]
pub open spec fn parse_field(s: Seq<u8>, i: int) -> Option<(nat, FieldBody, int)> {
    match parse_varint(s, i) {
        None => None,
        Some((key, j)) => {
            if key > 0xffff_ffff || key < 8 {
                None
            } else if key % 8 == 0 {
                match parse_varint(s, j) {
                    None => None,
                    Some((v, e)) => Some((key, FieldBody::Varint(v), e)),
                }
            } else if key % 8 == 1 {
                if j + 8 <= s.len() {
                    Some((key, FieldBody::Skipped, j + 8))
                } else {
                    None
                }
            } else if key % 8 == 2 {
                match parse_varint(s, j) {
                    None => None,
                    Some((n, b)) => if b + n <= s.len() {
                        Some((key, FieldBody::Bytes(b, b + n), b + n))
                    } else {
                        None
                    },
                }
            } else if key % 8 == 5 {
                if j + 4 <= s.len() {
                    Some((key, FieldBody::Skipped, j + 4))
                } else {
                    None
                }
            } else {
                None
            }
        },
    }
}

/// Fields of an application message from position `i` on, starting from the
/// values `t` and `d`; the last occurrence of a field wins, unknown ones are skipped.
pub open spec fn message_fields(s: Seq<u8>, i: int, t: i64, d: Seq<u8>) -> Option<(i64, Seq<u8>)>
    decreases s.len() - i,
{
    if i >= s.len() {
        Some((t, d))
    } else {
        match parse_field(s, i) {
            None => None,
            Some((key, body, e)) => if e <= i || e > s.len() {
                None
            } else {
                match body {
                    FieldBody::Varint(v) => if key == 8 {
                        message_fields(s, e, i64_of_bits(v), d)
                    } else {
                        message_fields(s, e, t, d)
                    },
                    FieldBody::Bytes(a, b) => if key == 18 {
                        message_fields(s, e, t, s.subrange(a, b))
                    } else {
                        message_fields(s, e, t, d)
                    },
                    FieldBody::Skipped => message_fields(s, e, t, d),
                }
            },
        }
    }
}

/// The accumulated fields of an RPC call.
pub type RpcFields = (bool, i64, u64, i64, Seq<u8>);

/// Fields of an RPC call from position `i` on, as [`message_fields`] reads a message.
pub open spec fn rpc_fields(s: Seq<u8>, i: int, cur: RpcFields) -> Option<RpcFields>
    decreases s.len() - i,
{
    if i >= s.len() {
        Some(cur)
    } else {
        match parse_field(s, i) {
            None => None,
            Some((key, body, e)) => if e <= i || e > s.len() {
                None
            } else {
                match body {
                    FieldBody::Varint(v) => if key == 8 {
                        rpc_fields(s, e, (v != 0, cur.1, cur.2, cur.3, cur.4))
                    } else if key == 16 {
                        rpc_fields(s, e, (cur.0, i64_of_bits(v), cur.2, cur.3, cur.4))
                    } else if key == 24 {
                        rpc_fields(s, e, (cur.0, cur.1, v as u64, cur.3, cur.4))
                    } else if key == 32 {
                        rpc_fields(s, e, (cur.0, cur.1, cur.2, i64_of_bits(v), cur.4))
                    } else {
                        rpc_fields(s, e, cur)
                    },
                    FieldBody::Bytes(a, b) => if key == 42 {
                        rpc_fields(s, e, (cur.0, cur.1, cur.2, cur.3, s.subrange(a, b)))
                    } else {
                        rpc_fields(s, e, cur)
                    },
                    FieldBody::Skipped => rpc_fields(s, e, cur),
                }
            },
        }
    }
}

/// The accumulated fields of a command request.
pub type CommandFields = (Seq<char>, u64, Seq<Seq<char>>);

/// Fields of a command request from position `i` on. Text fields must hold
/// valid UTF-8; each occurrence of field 3 appends one argument.
pub open spec fn command_fields(s: Seq<u8>, i: int, cur: CommandFields) -> Option<CommandFields>
    decreases s.len() - i,
{
    if i >= s.len() {
        Some(cur)
    } else {
        match parse_field(s, i) {
            None => None,
            Some((key, body, e)) => if e <= i || e > s.len() {
                None
            } else {
                match body {
                    FieldBody::Varint(v) => if key == 16 {
                        command_fields(s, e, (cur.0, v as u64, cur.2))
                    } else {
                        command_fields(s, e, cur)
                    },
                    FieldBody::Bytes(a, b) => if key == 10 || key == 26 {
                        if !valid_utf8(s.subrange(a, b)) {
                            None
                        } else if key == 10 {
                            command_fields(s, e, (decode_utf8(s.subrange(a, b)), cur.1, cur.2))
                        } else {
                            command_fields(
                                s,
                                e,
                                (cur.0, cur.1, cur.2.push(decode_utf8(s.subrange(a, b)))),
                            )
                        }
                    } else {
                        command_fields(s, e, cur)
                    },
                    FieldBody::Skipped => command_fields(s, e, cur),
                }
            },
        }
    }
}

/// A variant body decoded from its bytes; `None` when they are malformed.
pub open spec fn variant_of(key: nat, body: Seq<u8>) -> Option<FrameView> {
    if key == 10 {
        match message_fields(body, 0, 0, seq![]) {
            None => None,
            Some((t, d)) => Some(FrameView::Message { msg_type: t, data: d }),
        }
    } else if key == 18 {
        match rpc_fields(body, 0, (false, 0, 0, 0, seq![])) {
            None => None,
            Some((r, m, q, t, d)) => Some(
                FrameView::Rpc { reliable: r, method_id: m, request_id: q, arg_type: t, arg_data: d },
            ),
        }
    } else {
        match command_fields(body, 0, (seq![], 0, seq![])) {
            None => None,
            Some((c, q, a)) => Some(FrameView::Command { cmd: c, request_id: q, args: a }),
        }
    }
}

/// Fields of the envelope from position `i` on, with `cur` the variant seen
/// last. The outer `None` means malformed; `Some(None)` an envelope without a
/// variant.
pub open spec fn envelope_fields(s: Seq<u8>, i: int, cur: Option<FrameView>) -> Option<
    Option<FrameView>,
>
    decreases s.len() - i,
{
    if i >= s.len() {
        Some(cur)
    } else {
        match parse_field(s, i) {
            None => None,
            Some((key, body, e)) => if e <= i || e > s.len() {
                None
            } else {
                match body {
                    FieldBody::Bytes(a, b) => if key == 10 || key == 18 || key == 26 {
                        match variant_of(key, s.subrange(a, b)) {
                            None => None,
                            Some(f) => envelope_fields(s, e, Some(f)),
                        }
                    } else {
                        envelope_fields(s, e, cur)
                    },
                    _ => envelope_fields(s, e, cur),
                }
            },
        }
    }
}

/// What a byte sequence decodes to.
pub open spec fn decode_frame(s: Seq<u8>) -> Option<Option<FrameView>> {
    envelope_fields(s, 0, None)
}


// ---------------------------------------------------------------------------
// Executable codec
// ---------------------------------------------------------------------------

/// A field body as read from the bytes, with payload bounds as positions.
pub enum RawBody {
    Varint(u64),
    Bytes(usize, usize),
    Skipped,
}

impl RawBody {
    pub open spec fn model(self) -> FieldBody {
        match self {
            RawBody::Varint(v) => FieldBody::Varint(v as nat),
            RawBody::Bytes(a, b) => FieldBody::Bytes(a as int, b as int),
            RawBody::Skipped => FieldBody::Skipped,
        }
    }
}

/// Relies on `core::str::from_utf8`: it succeeds exactly on valid UTF-8, and
/// the text it gives has those bytes as its encoding.
#[verifier::external_body]
fn text_from_utf8(b: &[u8]) -> (r: Option<String>)
    ensures
        r is Some <==> valid_utf8(b@),
        r matches Some(t) ==> t@ == decode_utf8(b@),
{
    std::str::from_utf8(b).ok().map(|t| t.to_owned())
}

/// Reads the field at position `pos`, as [`parse_field`] describes it.
pub fn read_field(s: &[u8], pos: usize) -> (r: Option<(u64, RawBody, usize)>)
    ensures
        match parse_field(s@, pos as int) {
            None => r is None,
            Some((key, body, e)) => r matches Some((k, rb, re)) && k as nat == key && rb.model()
                == body && re as int == e && re <= s@.len(),
        },
        r matches Some((_, RawBody::Bytes(a, b), _)) ==> a <= b <= s@.len(),
{
    reveal(parse_field);
    let (key, j) = match read_varint(s, pos) {
        None => return None,
        Some(x) => x,
    };
    if key > 0xffff_ffff || key < 8 {
        return None;
    }
    let wire_type = key % 8;
    if wire_type == 0 {
        match read_varint(s, j) {
            None => None,
            Some((v, e)) => Some((key, RawBody::Varint(v), e)),
        }
    } else if wire_type == 1 {
        if j <= s.len() && s.len() - j >= 8 {
            Some((key, RawBody::Skipped, j + 8))
        } else {
            None
        }
    } else if wire_type == 2 {
        match read_varint(s, j) {
            None => None,
            Some((n, b)) => if b <= s.len() && n <= (s.len() - b) as u64 {
                Some((key, RawBody::Bytes(b, b + n as usize), b + n as usize))
            } else {
                None
            },
        }
    } else if wire_type == 5 {
        if j <= s.len() && s.len() - j >= 4 {
            Some((key, RawBody::Skipped, j + 4))
        } else {
            None
        }
    } else {
        None
    }
}

/// A copy of the bytes between positions `a` and `b`.
pub fn copy_range(s: &[u8], a: usize, b: usize) -> (r: Vec<u8>)
    requires
        a <= b <= s@.len(),
    ensures
        r@ == s@.subrange(a as int, b as int),
{
    let mut r: Vec<u8> = Vec::new();
    let mut k: usize = a;
    while k < b
        invariant
            a <= k <= b <= s@.len(),
            r@ == s@.subrange(a as int, k as int),
        decreases b - k,
    {
        r.push(s[k]);
        assert(r@ =~= s@.subrange(a as int, k + 1));
        k = k + 1;
    }
    r
}

/// Appends the bytes of `s` to `out`.
pub fn push_all(out: &mut Vec<u8>, s: &[u8])
    ensures
        final(out)@ == old(out)@ + s@,
{
    let ghost start = out@;
    let mut k: usize = 0;
    while k < s.len()
        invariant
            k <= s@.len(),
            out@ == start + s@.subrange(0, k as int),
        decreases s@.len() - k,
    {
        out.push(s[k]);
        assert(out@ =~= start + s@.subrange(0, k + 1));
        k = k + 1;
    }
    assert(s@.subrange(0, s@.len() as int) =~= s@);
}

/// Decodes the body of an application message.
pub fn decode_message_body(s: &[u8]) -> (r: Option<(i64, Vec<u8>)>)
    ensures
        match message_fields(s@, 0, 0, seq![]) {
            None => r is None,
            Some((t, d)) => r matches Some((rt, rd)) && rt == t && rd@ == d,
        },
{
    let mut i: usize = 0;
    let mut t: i64 = 0;
    let mut d: Vec<u8> = Vec::new();
    while i < s.len()
        invariant
            i <= s@.len(),
            message_fields(s@, 0, 0, seq![]) == message_fields(s@, i as int, t, d@),
        decreases s@.len() - i,
    {
        let (key, body, e) = match read_field(s, i) {
            None => return None,
            Some(x) => x,
        };
        if e <= i {
            return None;
        }
        match body {
            RawBody::Varint(v) => {
                if key == 8 {
                    t = bits_to_i64(v);
                }
            },
            RawBody::Bytes(a, b) => {
                if key == 18 {
                    d = copy_range(s, a, b);
                }
            },
            RawBody::Skipped => {},
        }
        i = e;
    }
    Some((t, d))
}

/// Decodes the body of an RPC call.
pub fn decode_rpc_body(s: &[u8]) -> (r: Option<(bool, i64, u64, i64, Vec<u8>)>)
    ensures
        match rpc_fields(s@, 0, (false, 0, 0, 0, seq![])) {
            None => r is None,
            Some(f) => r matches Some((a, b, c, d, e)) && (a, b, c, d, e@) == f,
        },
{
    let mut i: usize = 0;
    let mut reliable = false;
    let mut method_id: i64 = 0;
    let mut request_id: u64 = 0;
    let mut arg_type: i64 = 0;
    let mut arg_data: Vec<u8> = Vec::new();
    while i < s.len()
        invariant
            i <= s@.len(),
            rpc_fields(s@, 0, (false, 0, 0, 0, seq![])) == rpc_fields(
                s@,
                i as int,
                (reliable, method_id, request_id, arg_type, arg_data@),
            ),
        decreases s@.len() - i,
    {
        let (key, body, e) = match read_field(s, i) {
            None => return None,
            Some(x) => x,
        };
        if e <= i {
            return None;
        }
        match body {
            RawBody::Varint(v) => {
                if key == 8 {
                    reliable = v != 0;
                } else if key == 16 {
                    method_id = bits_to_i64(v);
                } else if key == 24 {
                    request_id = v;
                } else if key == 32 {
                    arg_type = bits_to_i64(v);
                }
            },
            RawBody::Bytes(a, b) => {
                if key == 42 {
                    arg_data = copy_range(s, a, b);
                }
            },
            RawBody::Skipped => {},
        }
        i = e;
    }
    Some((reliable, method_id, request_id, arg_type, arg_data))
}

/// Decodes the body of a command request.
pub fn decode_command_body(s: &[u8]) -> (r: Option<(String, u64, Vec<String>)>)
    ensures
        match command_fields(s@, 0, (seq![], 0, seq![])) {
            None => r is None,
            Some(f) => r matches Some((c, q, a)) && (c@, q, texts(a@)) == f,
        },
{
    let mut i: usize = 0;
    let mut cmd = String::new();
    let mut request_id: u64 = 0;
    let mut args: Vec<String> = Vec::new();
    proof {
        assert(texts(args@) =~= seq![]);
    }
    while i < s.len()
        invariant
            i <= s@.len(),
            command_fields(s@, 0, (seq![], 0, seq![])) == command_fields(
                s@,
                i as int,
                (cmd@, request_id, texts(args@)),
            ),
        decreases s@.len() - i,
    {
        let (key, body, e) = match read_field(s, i) {
            None => return None,
            Some(x) => x,
        };
        if e <= i {
            return None;
        }
        match body {
            RawBody::Varint(v) => {
                if key == 16 {
                    request_id = v;
                }
            },
            RawBody::Bytes(a, b) => {
                if key == 10 || key == 26 {
                    let bytes = copy_range(s, a, b);
                    let text = match text_from_utf8(bytes.as_slice()) {
                        None => return None,
                        Some(t) => t,
                    };
                    if key == 10 {
                        cmd = text;
                    } else {
                        let ghost before = args@;
                        args.push(text);
                        proof {
                            assert(texts(args@) =~= texts(before).push(text@));
                        }
                    }
                }
            },
            RawBody::Skipped => {},
        }
        i = e;
    }
    Some((cmd, request_id, args))
}

/// Decodes the variant body that field `key` of the envelope carries.
fn decode_variant(key: u64, body: &[u8]) -> (r: Option<Frame>)
    requires
        key == 10 || key == 18 || key == 26,
    ensures
        match variant_of(key as nat, body@) {
            None => r is None,
            Some(f) => r matches Some(rf) && rf@ == f,
        },
{
    if key == 10 {
        match decode_message_body(body) {
            None => None,
            Some((msg_type, data)) => Some(Frame::Message { msg_type, data }),
        }
    } else if key == 18 {
        match decode_rpc_body(body) {
            None => None,
            Some((reliable, method_id, request_id, arg_type, arg_data)) => Some(
                Frame::Rpc { reliable, method_id, request_id, arg_type, arg_data },
            ),
        }
    } else {
        match decode_command_body(body) {
            None => None,
            Some((cmd, request_id, args)) => Some(Frame::Command { cmd, request_id, args }),
        }
    }
}

/// Decodes an envelope. `Ok(None)` is an envelope that carries no variant,
/// which receivers drop; malformed bytes give `DecodeFailed`.
pub fn decode(s: &[u8]) -> (r: Result<Option<Frame>, NetError>)
    ensures
        match decode_frame(s@) {
            None => r == Err::<Option<Frame>, NetError>(NetError::DecodeFailed),
            Some(None) => r == Ok::<Option<Frame>, NetError>(None),
            Some(Some(f)) => r matches Ok(Some(rf)) && rf@ == f,
        },
{
    let mut i: usize = 0;
    let mut cur: Option<Frame> = None;
    while i < s.len()
        invariant
            i <= s@.len(),
            decode_frame(s@) == envelope_fields(
                s@,
                i as int,
                match cur {
                    None => None,
                    Some(f) => Some(f@),
                },
            ),
        decreases s@.len() - i,
    {
        let (key, body, e) = match read_field(s, i) {
            None => return Err(NetError::DecodeFailed),
            Some(x) => x,
        };
        if e <= i {
            return Err(NetError::DecodeFailed);
        }
        match body {
            RawBody::Bytes(a, b) => {
                if key == 10 || key == 18 || key == 26 {
                    let inner = copy_range(s, a, b);
                    match decode_variant(key, inner.as_slice()) {
                        None => return Err(NetError::DecodeFailed),
                        Some(f) => {
                            cur = Some(f);
                        },
                    }
                }
            },
            _ => {},
        }
        i = e;
    }
    Ok(cur)
}

/// Appends a varint field, omitted when `v` is zero.
fn push_int_field(out: &mut Vec<u8>, tag: u64, v: u64)
    ensures
        final(out)@ == old(out)@ + int_field(tag as nat, v as nat),
{
    if v != 0 {
        push_varint(out, tag);
        push_varint(out, v);
        assert(final(out)@ =~= old(out)@ + int_field(tag as nat, v as nat));
    } else {
        assert(out@ =~= old(out)@ + int_field(tag as nat, v as nat));
    }
}

/// Appends a length-delimited field.
fn push_len_field(out: &mut Vec<u8>, tag: u64, b: &[u8])
    ensures
        final(out)@ == old(out)@ + len_field(tag as nat, b@),
{
    push_varint(out, tag);
    push_varint(out, b.len() as u64);
    push_all(out, b);
    assert(final(out)@ =~= old(out)@ + len_field(tag as nat, b@));
}

/// Appends a length-delimited field, omitted when empty.
fn push_bytes_field(out: &mut Vec<u8>, tag: u64, b: &[u8])
    ensures
        final(out)@ == old(out)@ + bytes_field(tag as nat, b@),
{
    if b.len() != 0 {
        push_len_field(out, tag, b);
    } else {
        assert(out@ =~= old(out)@ + bytes_field(tag as nat, b@));
    }
}

/// The body of an application message.
pub fn encode_message_body(msg_type: i64, data: &[u8]) -> (r: Vec<u8>)
    ensures
        r@ == message_body(msg_type, data@),
{
    let mut out: Vec<u8> = Vec::new();
    push_int_field(&mut out, 8, i64_to_bits(msg_type));
    push_bytes_field(&mut out, 18, data);
    assert(out@ =~= message_body(msg_type, data@));
    out
}

/// The body of an RPC call.
pub fn encode_rpc_body(
    reliable: bool,
    method_id: i64,
    request_id: u64,
    arg_type: i64,
    arg_data: &[u8],
) -> (r: Vec<u8>)
    ensures
        r@ == rpc_body(reliable, method_id, request_id, arg_type, arg_data@),
{
    let mut out: Vec<u8> = Vec::new();
    push_int_field(&mut out, 8, if reliable { 1 } else { 0 });
    push_int_field(&mut out, 16, i64_to_bits(method_id));
    push_int_field(&mut out, 24, request_id);
    push_int_field(&mut out, 32, i64_to_bits(arg_type));
    push_bytes_field(&mut out, 42, arg_data);
    assert(out@ =~= rpc_body(reliable, method_id, request_id, arg_type, arg_data@));
    out
}

/// The body of a command request.
pub fn encode_command_body(cmd: &str, request_id: u64, args: &[String]) -> (r: Vec<u8>)
    ensures
        r@ == command_body(cmd@, request_id, texts(args@)),
{
    let mut out: Vec<u8> = Vec::new();
    push_bytes_field(&mut out, 10, cmd.as_bytes());
    push_int_field(&mut out, 16, request_id);
    let ghost head = out@;
    let mut k: usize = 0;
    assert(texts(args@).subrange(0, args@.len() as int) =~= texts(args@));
    while k < args.len()
        invariant
            k <= args@.len(),
            head + text_list_field(26, texts(args@)) == out@ + text_list_field(
                26,
                texts(args@).subrange(k as int, args@.len() as int),
            ),
        decreases args@.len() - k,
    {
        let ghost rest = texts(args@).subrange(k as int, args@.len() as int);
        let ghost before = out@;
        push_len_field(&mut out, 26, args[k].as_str().as_bytes());
        proof {
            assert(rest[0] == args@[k as int]@);
            assert(rest.drop_first() =~= texts(args@).subrange(k + 1, args@.len() as int));
            assert(text_list_field(26, rest) == len_field(26, encode_utf8(rest[0]))
                + text_list_field(26, rest.drop_first()));
            assert(out@ + text_list_field(26, rest.drop_first()) =~= before + text_list_field(
                26,
                rest,
            ));
        }
        k = k + 1;
    }
    proof {
        assert(texts(args@).subrange(args@.len() as int, args@.len() as int) =~= seq![]);
        assert(out@ =~= out@ + text_list_field(26, seq![]));
    }
    assert(out@ =~= command_body(cmd@, request_id, texts(args@)));
    out
}

/// Wraps a variant body into the envelope under field `tag`.
fn envelope(tag: u64, body: &[u8]) -> (r: Vec<u8>)
    ensures
        r@ == len_field(tag as nat, body@),
{
    let mut out: Vec<u8> = Vec::new();
    push_len_field(&mut out, tag, body);
    assert(out@ =~= len_field(tag as nat, body@));
    out
}

/// Encodes an application message frame.
pub fn encode_message(msg_type: i64, data: &[u8]) -> (r: Vec<u8>)
    ensures
        r@ == encode_frame(FrameView::Message { msg_type, data: data@ }),
{
    let body = encode_message_body(msg_type, data);
    envelope(10, body.as_slice())
}

/// Encodes an RPC call frame.
pub fn encode_rpc(reliable: bool, method_id: i64, request_id: u64, arg_type: i64, arg_data: &[u8]) -> (r:
    Vec<u8>)
    ensures
        r@ == encode_frame(
            FrameView::Rpc { reliable, method_id, request_id, arg_type, arg_data: arg_data@ },
        ),
{
    let body = encode_rpc_body(reliable, method_id, request_id, arg_type, arg_data);
    envelope(18, body.as_slice())
}

/// Encodes a command request frame.
pub fn encode_command(cmd: &str, request_id: u64, args: &[String]) -> (r: Vec<u8>)
    ensures
        r@ == encode_frame(FrameView::Command { cmd: cmd@, request_id, args: texts(args@) }),
{
    let body = encode_command_body(cmd, request_id, args);
    envelope(26, body.as_slice())
}

/// Encodes any frame.
pub fn encode(f: &Frame) -> (r: Vec<u8>)
    ensures
        r@ == encode_frame(f@),
{
    match f {
        Frame::Message { msg_type, data } => encode_message(*msg_type, data.as_slice()),
        Frame::Rpc { reliable, method_id, request_id, arg_type, arg_data } => encode_rpc(
            *reliable,
            *method_id,
            *request_id,
            *arg_type,
            arg_data.as_slice(),
        ),
        Frame::Command { cmd, request_id, args } => encode_command(
            cmd.as_str(),
            *request_id,
            args.as_slice(),
        ),
    }
}


// ---------------------------------------------------------------------------
// Round trip
// ---------------------------------------------------------------------------

proof fn lemma_read_varint_at(v: nat, pre: Seq<u8>, rest: Seq<u8>)
    requires
        v < 0x1_0000_0000_0000_0000,
    ensures
        parse_varint(pre + varint(v) + rest, pre.len() as int) == Some(
            (v, (pre.len() + varint(v).len()) as int),
        ),
{
    let s = pre + varint(v) + rest;
    let i = pre.len() as int;
    assert(s.subrange(i, i + varint(v).len()) =~= varint(v));
    assert(pow128(0) == 1) by {
        reveal_with_fuel(pow128, 1);
    }
    lemma_varint_read(v, s, i, 0, 0);
}

/// A non-zero varint field written after `pre` reads back as its value.
proof fn lemma_int_field_at(pre: Seq<u8>, tag: nat, v: nat, post: Seq<u8>)
    requires
        8 <= tag < 128,
        tag % 8 == 0,
        0 < v < 0x1_0000_0000_0000_0000,
    ensures
        parse_field(pre + int_field(tag, v) + post, pre.len() as int) == Some(
            (tag, FieldBody::Varint(v), (pre.len() + int_field(tag, v).len()) as int),
        ),
{
    reveal(parse_field);
    let s = pre + int_field(tag, v) + post;
    assert(s =~= pre + varint(tag) + (varint(v) + post));
    lemma_read_varint_at(tag, pre, varint(v) + post);
    let pre2 = pre + varint(tag);
    assert(s =~= pre2 + varint(v) + post);
    lemma_read_varint_at(v, pre2, post);
}

/// A length-delimited field written after `pre` reads back as its payload.
proof fn lemma_len_field_at(pre: Seq<u8>, tag: nat, b: Seq<u8>, post: Seq<u8>)
    requires
        8 <= tag < 128,
        tag % 8 == 2,
        b.len() < 0x1_0000_0000_0000_0000,
    ensures
        ({
            let s = pre + len_field(tag, b) + post;
            let e = (pre.len() + len_field(tag, b).len()) as int;
            &&& parse_field(s, pre.len() as int) == Some(
                (tag, FieldBody::Bytes(e - b.len(), e), e),
            )
            &&& s.subrange(e - b.len(), e) == b
        }),
{
    reveal(parse_field);
    let s = pre + len_field(tag, b) + post;
    let e = (pre.len() + len_field(tag, b).len()) as int;
    assert(s =~= pre + varint(tag) + (varint(b.len()) + b + post));
    lemma_read_varint_at(tag, pre, varint(b.len()) + b + post);
    let pre2 = pre + varint(tag);
    assert(s =~= pre2 + varint(b.len()) + (b + post));
    lemma_read_varint_at(b.len(), pre2, b + post);
    assert(s.subrange(e - b.len(), e) =~= b);
}

proof fn lemma_cast_round_trip(t: i64)
    ensures
        i64_of_bits(bits_of_i64(t)) == t,
        bits_of_i64(t) < 0x1_0000_0000_0000_0000,
{
}

/// A message body decodes to the fields it was made of.
proof fn lemma_message_round_trip(t: i64, d: Seq<u8>)
    requires
        message_body(t, d).len() < 0x1_0000_0000_0000_0000,
    ensures
        message_fields(message_body(t, d), 0, 0, seq![]) == Some((t, d)),
{
    let f1 = int_field(8, bits_of_i64(t));
    let f2 = bytes_field(18, d);
    let s = f1 + f2;
    lemma_cast_round_trip(t);
    if bits_of_i64(t) != 0 {
        lemma_int_field_at(seq![], 8, bits_of_i64(t), f2);
        assert(s =~= seq![] + f1 + f2);
    }
    assert(message_fields(s, 0, 0, seq![]) == message_fields(s, f1.len() as int, t, seq![]));
    if d.len() != 0 {
        lemma_len_field_at(f1, 18, d, seq![]);
        assert(s =~= f1 + len_field(18, d) + seq![]);
        assert(message_fields(s, f1.len() as int, t, seq![]) == message_fields(
            s,
            s.len() as int,
            t,
            d,
        ));
    } else {
        assert(f2 =~= seq![]);
        assert(s =~= f1);
        assert(d =~= seq![]);
    }
}

/// An RPC body decodes to the fields it was made of.
#[verifier::rlimit(80)]
proof fn lemma_rpc_round_trip(r: bool, m: i64, q: u64, t: i64, d: Seq<u8>)
    requires
        rpc_body(r, m, q, t, d).len() < 0x1_0000_0000_0000_0000,
    ensures
        rpc_fields(rpc_body(r, m, q, t, d), 0, (false, 0, 0, 0, seq![])) == Some((r, m, q, t, d)),
{
    let f1 = int_field(8, if r { 1 } else { 0 });
    let f2 = int_field(16, bits_of_i64(m));
    let f3 = int_field(24, q as nat);
    let f4 = int_field(32, bits_of_i64(t));
    let f5 = bytes_field(42, d);
    let s = f1 + f2 + f3 + f4 + f5;
    assert(s =~= rpc_body(r, m, q, t, d));
    lemma_cast_round_trip(m);
    lemma_cast_round_trip(t);
    let p1 = f1.len() as int;
    let p2 = p1 + f2.len();
    let p3 = p2 + f3.len();
    let p4 = p3 + f4.len();
    if r {
        lemma_int_field_at(seq![], 8, 1, f2 + f3 + f4 + f5);
        assert(s =~= seq![] + f1 + (f2 + f3 + f4 + f5));
    }
    assert(rpc_fields(s, 0, (false, 0, 0, 0, seq![])) == rpc_fields(s, p1, (r, 0, 0, 0, seq![])));
    if bits_of_i64(m) != 0 {
        lemma_int_field_at(f1, 16, bits_of_i64(m), f3 + f4 + f5);
        assert(s =~= f1 + f2 + (f3 + f4 + f5));
    }
    assert(rpc_fields(s, p1, (r, 0, 0, 0, seq![])) == rpc_fields(s, p2, (r, m, 0, 0, seq![])));
    if q != 0 {
        lemma_int_field_at(f1 + f2, 24, q as nat, f4 + f5);
        assert(s =~= (f1 + f2) + f3 + (f4 + f5));
    }
    assert(rpc_fields(s, p2, (r, m, 0, 0, seq![])) == rpc_fields(s, p3, (r, m, q, 0, seq![])));
    if bits_of_i64(t) != 0 {
        lemma_int_field_at(f1 + f2 + f3, 32, bits_of_i64(t), f5);
        assert(s =~= (f1 + f2 + f3) + f4 + f5);
    }
    assert(rpc_fields(s, p3, (r, m, q, 0, seq![])) == rpc_fields(s, p4, (r, m, q, t, seq![])));
    if d.len() != 0 {
        lemma_len_field_at(f1 + f2 + f3 + f4, 42, d, seq![]);
        assert(s =~= (f1 + f2 + f3 + f4) + len_field(42, d) + seq![]);
        assert(rpc_fields(s, p4, (r, m, q, t, seq![])) == rpc_fields(
            s,
            s.len() as int,
            (r, m, q, t, d),
        ));
    } else {
        assert(d =~= seq![]);
    }
}

/// A repeated string field written after `pre` appends its elements in order.
proof fn lemma_text_list_round_trip(pre: Seq<u8>, args: Seq<Seq<char>>, cur: CommandFields)
    requires
        (pre + text_list_field(26, args)).len() < 0x1_0000_0000_0000_0000,
    ensures
        command_fields(pre + text_list_field(26, args), pre.len() as int, cur) == Some(
            (cur.0, cur.1, cur.2 + args),
        ),
    decreases args.len(),
{
    let s = pre + text_list_field(26, args);
    if args.len() == 0 {
        assert(s =~= pre);
        assert(cur.2 + args =~= cur.2);
    } else {
        let a = encode_utf8(args[0]);
        let rest = text_list_field(26, args.drop_first());
        assert(s =~= pre + len_field(26, a) + rest);
        lemma_len_field_at(pre, 26, a, rest);
        vstd::utf8::encode_utf8_valid_utf8(args[0]);
        vstd::utf8::encode_utf8_decode_utf8(args[0]);
        let pre2 = pre + len_field(26, a);
        assert(s =~= pre2 + rest);
        lemma_text_list_round_trip(pre2, args.drop_first(), (cur.0, cur.1, cur.2.push(args[0])));
        assert(cur.2.push(args[0]) + args.drop_first() =~= cur.2 + args);
    }
}

/// A command body decodes to the fields it was made of.
proof fn lemma_command_round_trip(c: Seq<char>, q: u64, args: Seq<Seq<char>>)
    requires
        command_body(c, q, args).len() < 0x1_0000_0000_0000_0000,
    ensures
        command_fields(command_body(c, q, args), 0, (seq![], 0, seq![])) == Some((c, q, args)),
{
    let cb = encode_utf8(c);
    let f1 = bytes_field(10, cb);
    let f2 = int_field(16, q as nat);
    let f3 = text_list_field(26, args);
    let s = f1 + f2 + f3;
    assert(s =~= command_body(c, q, args));
    vstd::utf8::encode_utf8_valid_utf8(c);
    vstd::utf8::encode_utf8_decode_utf8(c);
    if cb.len() != 0 {
        lemma_len_field_at(seq![], 10, cb, f2 + f3);
        assert(s =~= seq![] + len_field(10, cb) + (f2 + f3));
        assert(s.subrange(f1.len() - cb.len(), f1.len() as int) == cb);
    } else {
        assert(cb =~= seq![]);
        assert(decode_utf8(seq![]) =~= seq![]) by {
            reveal_with_fuel(decode_utf8, 1);
        }
    }
    assert(command_fields(s, 0, (seq![], 0, seq![])) == command_fields(
        s,
        f1.len() as int,
        (c, 0, seq![]),
    ));
    if q != 0 {
        lemma_int_field_at(f1, 16, q as nat, f3);
    }
    assert(command_fields(s, f1.len() as int, (c, 0, seq![])) == command_fields(
        s,
        (f1 + f2).len() as int,
        (c, q, seq![]),
    ));
    lemma_text_list_round_trip(f1 + f2, args, (c, q, seq![]));
    assert(seq![] + args =~= args);
}

/// Decoding an encoded frame gives the frame back. Proto3 leaves default
/// values off the wire, and decoding restores them, so no field is lost.
pub proof fn lemma_decode_encode(f: FrameView)
    requires
        encode_frame(f).len() < 0x1_0000_0000_0000_0000,
    ensures
        decode_frame(encode_frame(f)) == Some(Some(f)),
{
    let (tag, body) = match f {
        FrameView::Message { msg_type, data } => (10nat, message_body(msg_type, data)),
        FrameView::Rpc { reliable, method_id, request_id, arg_type, arg_data } => (
            18nat,
            rpc_body(reliable, method_id, request_id, arg_type, arg_data),
        ),
        FrameView::Command { cmd, request_id, args } => (
            26nat,
            command_body(cmd, request_id, args),
        ),
    };
    let s = encode_frame(f);
    assert(s == len_field(tag, body));
    lemma_len_field_at(seq![], tag, body, seq![]);
    assert(s =~= seq![] + len_field(tag, body) + seq![]);
    match f {
        FrameView::Message { msg_type, data } => lemma_message_round_trip(msg_type, data),
        FrameView::Rpc { reliable, method_id, request_id, arg_type, arg_data } => {
            lemma_rpc_round_trip(reliable, method_id, request_id, arg_type, arg_data)
        },
        FrameView::Command { cmd, request_id, args } => {
            lemma_command_round_trip(cmd, request_id, args)
        },
    }
    assert(variant_of(tag, body) == Some(f));
    assert(envelope_fields(s, 0, None) == envelope_fields(s, s.len() as int, Some(f)));
}

} // verus!
