use graph_life::parse::parse_u32;

#[test]
fn parses_plain_numbers() {
    assert_eq!(parse_u32(b"0"), Some(0));
    assert_eq!(parse_u32(b"42"), Some(42));
    assert_eq!(parse_u32(b"100"), Some(100));
}

#[test]
fn parses_boundary_values() {
    assert_eq!(parse_u32(b"4294967295"), Some(u32::MAX));
    assert_eq!(parse_u32(b"4294967296"), None);
    assert_eq!(parse_u32(b"99999999999999999999"), None);
}

#[test]
fn accepts_leading_zeros() {
    assert_eq!(parse_u32(b"000123"), Some(123));
    assert_eq!(parse_u32(b"00000000000000000001"), Some(1));
}

#[test]
fn rejects_non_digits() {
    assert_eq!(parse_u32(b""), None);
    assert_eq!(parse_u32(b"12a"), None);
    assert_eq!(parse_u32(b"-3"), None);
    assert_eq!(parse_u32(b" 7"), None);
    assert_eq!(parse_u32(b"3.5"), None);
}
