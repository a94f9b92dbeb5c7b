use omgpp::endpoint::endpoint_text_bytes;
use omgpp::{identity_from_endpoint, ConnectionTracker, Endpoint};

fn text(ip: u128, port: u16) -> String {
    String::from_utf8(endpoint_text_bytes(&Endpoint::from_ipv6(ip, port))).unwrap()
}

fn md5_identity(s: &str) -> u128 {
    u128::from_be_bytes(md5::compute(s.as_bytes()).0)
}

#[test]
fn text_of_loopback() {
    assert_eq!(text(1, 55655), "::1:55655");
}

#[test]
fn text_of_unspecified() {
    assert_eq!(text(0, 0), ":::0");
}

#[test]
fn text_of_ipv4_mapped() {
    let e = Endpoint::from_ipv4([127, 0, 0, 1], 80);
    assert_eq!(e.ip, 0xffff_7f00_0001);
    assert_eq!(String::from_utf8(endpoint_text_bytes(&e)).unwrap(), "::ffff:127.0.0.1:80");
}

#[test]
fn text_compresses_longest_zero_run() {
    // 2001:db8:0:0:1:0:0:0
    let ip: u128 = 0x2001_0db8_0000_0000_0001_0000_0000_0000;
    assert_eq!(text(ip, 8080), "2001:db8:0:0:1:::8080");
}

#[test]
fn text_compresses_first_of_equal_runs() {
    // 1:0:0:2:0:0:3:4
    let ip: u128 = 0x0001_0000_0000_0002_0000_0000_0003_0004;
    assert_eq!(text(ip, 1), "1::2:0:0:3:4:1");
}

#[test]
fn text_keeps_single_zero_group() {
    // 1:0:2:3:4:5:6:7
    let ip: u128 = 0x0001_0000_0002_0003_0004_0005_0006_0007;
    assert_eq!(text(ip, 65535), "1:0:2:3:4:5:6:7:65535");
}

#[test]
fn text_of_full_address() {
    let ip: u128 = 0xfe80_0000_0000_0000_abcd_ef01_2345_6789;
    assert_eq!(text(ip, 10), "fe80::abcd:ef01:2345:6789:10");
}

#[test]
fn identity_is_md5_of_text() {
    let e = Endpoint::from_ipv6(1, 55655);
    assert_eq!(identity_from_endpoint(&e), md5_identity("::1:55655"));
    assert_eq!(ConnectionTracker::generate_endpoint_uuid(&e), md5_identity("::1:55655"));
    assert_eq!(ConnectionTracker::generate_uuid(1, 55655), md5_identity("::1:55655"));
}

#[test]
fn identity_of_ipv4_equals_mapped_ipv6() {
    let v4 = Endpoint::from_ipv4([10, 1, 2, 3], 4000);
    let v6 = Endpoint::from_ipv6(0xffff_0a01_0203, 4000);
    assert_eq!(identity_from_endpoint(&v4), identity_from_endpoint(&v6));
    assert_eq!(identity_from_endpoint(&v4), md5_identity("::ffff:10.1.2.3:4000"));
}

#[test]
fn identity_differs_by_port() {
    let a = Endpoint::from_ipv6(1, 1);
    let b = Endpoint::from_ipv6(1, 2);
    assert_ne!(identity_from_endpoint(&a), identity_from_endpoint(&b));
}

#[test]
fn digest_bytes_read_big_endian() {
    let b = [0x01, 0x23, 0x45, 0x67, 0x89, 0xab, 0xcd, 0xef, 0, 0, 0, 0, 0, 0, 0xff, 0x10];
    assert_eq!(omgpp::endpoint::from_be_bytes(b), 0x0123_4567_89ab_cdef_0000_0000_0000_ff10);
}
