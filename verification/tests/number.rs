use kvs::number::{parse_i64, render_i64};

#[test]
fn render_zero() {
    assert_eq!(render_i64(0), b"0".to_vec());
}

#[test]
fn render_positive() {
    assert_eq!(render_i64(7), b"7".to_vec());
    assert_eq!(render_i64(10), b"10".to_vec());
    assert_eq!(render_i64(1234567890), b"1234567890".to_vec());
}

#[test]
fn render_negative() {
    assert_eq!(render_i64(-1), b"-1".to_vec());
    assert_eq!(render_i64(-4000), b"-4000".to_vec());
}

#[test]
fn render_extremes() {
    assert_eq!(render_i64(i64::MAX), b"9223372036854775807".to_vec());
    assert_eq!(render_i64(i64::MIN), b"-9223372036854775808".to_vec());
}

#[test]
fn parse_plain_digits() {
    assert_eq!(parse_i64(b"0"), Some(0));
    assert_eq!(parse_i64(b"42"), Some(42));
    assert_eq!(parse_i64(b"0042"), Some(42));
}

#[test]
fn parse_signs() {
    assert_eq!(parse_i64(b"+42"), Some(42));
    assert_eq!(parse_i64(b"-42"), Some(-42));
    assert_eq!(parse_i64(b"-0"), Some(0));
    assert_eq!(parse_i64(b"+0"), Some(0));
}

#[test]
fn parse_extremes() {
    assert_eq!(parse_i64(b"9223372036854775807"), Some(i64::MAX));
    assert_eq!(parse_i64(b"-9223372036854775808"), Some(i64::MIN));
    assert_eq!(parse_i64(b"000000000000000000000009223372036854775807"), Some(i64::MAX));
}

#[test]
fn parse_rejects_what_does_not_fit() {
    assert_eq!(parse_i64(b"9223372036854775808"), None);
    assert_eq!(parse_i64(b"-9223372036854775809"), None);
    assert_eq!(parse_i64(b"99999999999999999999999999999999999999999999"), None);
}

#[test]
fn parse_rejects_what_is_no_number() {
    assert_eq!(parse_i64(b""), None);
    assert_eq!(parse_i64(b"+"), None);
    assert_eq!(parse_i64(b"-"), None);
    assert_eq!(parse_i64(b"--1"), None);
    assert_eq!(parse_i64(b"+-1"), None);
    assert_eq!(parse_i64(b"12a"), None);
    assert_eq!(parse_i64(b"a12"), None);
    assert_eq!(parse_i64(b" 12"), None);
    assert_eq!(parse_i64(b"12 "), None);
    assert_eq!(parse_i64(b"1.5"), None);
    assert_eq!(parse_i64(b"99999999999999999999x"), None);
}

#[test]
fn parse_agrees_with_the_standard_library() {
    let texts = ["0", "-0", "+7", "007", "-", "", "1_000", "9223372036854775807", "٣"];
    for text in texts {
        assert_eq!(parse_i64(text.as_bytes()), text.parse::<i64>().ok());
    }
}

#[test]
fn integer_round_trip() {
    for n in [0, 1, -1, 9, 10, -10, 99, 100, 4000, -4001, i64::MAX, i64::MIN, i64::MIN + 1] {
        assert_eq!(parse_i64(&render_i64(n)), Some(n));
        assert_eq!(render_i64(n), n.to_string().into_bytes());
    }
}
