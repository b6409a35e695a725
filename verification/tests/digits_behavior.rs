use memcached::digits::{fmt_i32, fmt_u64, parse_dec, parse_i32};

#[test]
fn parse_dec_plain() {
    assert_eq!(parse_dec(&b"123".to_vec(), u64::MAX), Some(123));
    assert_eq!(parse_dec(&b"0".to_vec(), u64::MAX), Some(0));
    assert_eq!(parse_dec(&b"007".to_vec(), u64::MAX), Some(7));
}

#[test]
fn parse_dec_rejects_empty_and_nondigits() {
    assert_eq!(parse_dec(&b"".to_vec(), u64::MAX), None);
    assert_eq!(parse_dec(&b"12a".to_vec(), u64::MAX), None);
    assert_eq!(parse_dec(&b"-1".to_vec(), u64::MAX), None);
    assert_eq!(parse_dec(&b" 1".to_vec(), u64::MAX), None);
}

#[test]
fn parse_dec_respects_limit() {
    assert_eq!(parse_dec(&b"4294967295".to_vec(), u32::MAX as u64), Some(4294967295));
    assert_eq!(parse_dec(&b"4294967296".to_vec(), u32::MAX as u64), None);
    assert_eq!(parse_dec(&b"99999999999999999999999999".to_vec(), u64::MAX), None);
}

#[test]
fn parse_i32_signs() {
    assert_eq!(parse_i32(&b"-5".to_vec()), Some(-5));
    assert_eq!(parse_i32(&b"+7".to_vec()), Some(7));
    assert_eq!(parse_i32(&b"42".to_vec()), Some(42));
    assert_eq!(parse_i32(&b"-0".to_vec()), Some(0));
}

#[test]
fn parse_i32_range() {
    assert_eq!(parse_i32(&b"2147483647".to_vec()), Some(i32::MAX));
    assert_eq!(parse_i32(&b"2147483648".to_vec()), None);
    assert_eq!(parse_i32(&b"-2147483648".to_vec()), Some(i32::MIN));
    assert_eq!(parse_i32(&b"-2147483649".to_vec()), None);
}

#[test]
fn parse_i32_rejects_bare_signs() {
    assert_eq!(parse_i32(&b"-".to_vec()), None);
    assert_eq!(parse_i32(&b"+".to_vec()), None);
    assert_eq!(parse_i32(&b"".to_vec()), None);
}

#[test]
fn fmt_u64_exact() {
    assert_eq!(fmt_u64(0), b"0".to_vec());
    assert_eq!(fmt_u64(9), b"9".to_vec());
    assert_eq!(fmt_u64(1234), b"1234".to_vec());
    assert_eq!(fmt_u64(u64::MAX), b"18446744073709551615".to_vec());
}

#[test]
fn fmt_i32_exact() {
    assert_eq!(fmt_i32(-45), b"-45".to_vec());
    assert_eq!(fmt_i32(0), b"0".to_vec());
    assert_eq!(fmt_i32(i32::MIN), b"-2147483648".to_vec());
    assert_eq!(fmt_i32(i32::MAX), b"2147483647".to_vec());
}

#[test]
fn parse_format_round_trip() {
    for n in [0u64, 1, 10, 99, 100, 65535, 4294967295] {
        assert_eq!(parse_dec(&fmt_u64(n), u64::MAX), Some(n));
    }
}
