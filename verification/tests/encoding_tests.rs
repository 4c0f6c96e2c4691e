use rsedis::decimal::{parse_i64, push_decimal_i64, push_decimal_u64};
use rsedis::rdbutil::{encode_bytes, encode_i64, encode_len, EncodeError};

#[test]
fn encode_i64_small_widths() {
    let mut out = Vec::new();
    encode_i64(1, &mut out).unwrap();
    assert_eq!(out, vec![0xc0, 1]);
    let mut out = Vec::new();
    encode_i64(-1, &mut out).unwrap();
    assert_eq!(out, vec![0xc0, 0xff]);
    let mut out = Vec::new();
    encode_i64(300, &mut out).unwrap();
    assert_eq!(out, vec![0xc1, 0x2c, 0x01]);
    let mut out = Vec::new();
    encode_i64(-32768, &mut out).unwrap();
    assert_eq!(out, vec![0xc1, 0x00, 0x80]);
    let mut out = Vec::new();
    encode_i64(70000, &mut out).unwrap();
    assert_eq!(out, vec![0xc2, 0x70, 0x11, 0x01, 0x00]);
    let mut out = Vec::new();
    encode_i64(-2147483648, &mut out).unwrap();
    assert_eq!(out, vec![0xc2, 0x00, 0x00, 0x00, 0x80]);
}

#[test]
fn encode_i64_too_wide() {
    let mut out = vec![9u8];
    assert!(matches!(encode_i64(2147483648, &mut out), Err(EncodeError::OverflowError)));
    assert!(matches!(encode_i64(i64::MIN, &mut out), Err(EncodeError::OverflowError)));
    assert_eq!(out, vec![9u8]);
}

#[test]
fn encode_lengths() {
    let mut out = Vec::new();
    encode_len(10, &mut out);
    assert_eq!(out, vec![10]);
    let mut out = Vec::new();
    encode_len(300, &mut out);
    assert_eq!(out, vec![0x41, 0x2c]);
    let mut out = Vec::new();
    encode_len(70000, &mut out);
    assert_eq!(out, vec![0x80, 0x00, 0x01, 0x11, 0x70]);
}

#[test]
fn encode_byte_strings() {
    let mut out = vec![7u8];
    encode_bytes(b"abc", &mut out);
    assert_eq!(out, vec![7, 3, b'a', b'b', b'c']);
}

#[test]
fn encode_error_from_io() {
    let e: EncodeError = std::io::Error::new(std::io::ErrorKind::Other, "x").into();
    assert!(matches!(e, EncodeError::IOError(_)));
}

#[test]
fn decimal_round_trip() {
    for v in [0i64, 7, -7, 42, 1234567890, i64::MAX, i64::MIN] {
        let mut out = Vec::new();
        push_decimal_i64(v, &mut out);
        assert_eq!(out, v.to_string().into_bytes());
        assert_eq!(parse_i64(&out), Some(v));
    }
    let mut out = Vec::new();
    push_decimal_u64(u64::MAX, &mut out);
    assert_eq!(out, b"18446744073709551615".to_vec());
}

#[test]
fn decimal_parse_rejects() {
    assert_eq!(parse_i64(b""), None);
    assert_eq!(parse_i64(b"-"), None);
    assert_eq!(parse_i64(b"12a"), None);
    assert_eq!(parse_i64(b"9223372036854775808"), None);
    assert_eq!(parse_i64(b"-9223372036854775809"), None);
    assert_eq!(parse_i64(b"+5"), Some(5));
    assert_eq!(parse_i64(b"007"), Some(7));
}
