use hugh::ids::{format_id, parse_id};

#[test]
fn ids_parse_as_unsigned_decimals() {
    assert_eq!(parse_id("0"), Some(0));
    assert_eq!(parse_id("1234567890123456789"), Some(1234567890123456789));
    assert_eq!(parse_id("+42"), Some(42));
    assert_eq!(parse_id("007"), Some(7));
    assert_eq!(parse_id("18446744073709551615"), Some(u64::MAX));
}

#[test]
fn malformed_ids_are_refused() {
    assert_eq!(parse_id(""), None);
    assert_eq!(parse_id("+"), None);
    assert_eq!(parse_id("-1"), None);
    assert_eq!(parse_id("12a"), None);
    assert_eq!(parse_id(" 12"), None);
    assert_eq!(parse_id("18446744073709551616"), None);
    assert_eq!(parse_id("99999999999999999999999"), None);
}

#[test]
fn ids_round_trip_through_text() {
    for id in [0u64, 9, 10, 99, 100, 1234, u64::MAX, 281474976710656] {
        let text = format_id(id);
        assert_eq!(text, id.to_string());
        assert_eq!(parse_id(&text), Some(id));
    }
}
