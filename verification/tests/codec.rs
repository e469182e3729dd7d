use dynamic_workspaces::codec::{decode, encode, parse_index};

#[test]
fn encode_pads_to_five_digits() {
    assert_eq!(encode(":", 0), ":00000");
    assert_eq!(encode(":", 1), ":00001");
    assert_eq!(encode(":", 42), ":00042");
    assert_eq!(encode(":", 99999), ":99999");
    assert_eq!(encode("ws-", 7), "ws-00007");
    assert_eq!(encode("", 12345), "12345");
}

#[test]
fn decode_inverts_encode() {
    for &i in &[0usize, 1, 9, 10, 42, 99, 100, 9999, 12345, 99998, 99999] {
        let name = encode(":", i);
        assert_eq!(decode(":", &name), Some(i));
    }
    let name = encode("group", 321);
    assert_eq!(decode("group", &name), Some(321));
}

#[test]
fn decode_rejects_foreign_names() {
    assert_eq!(decode(":", "1"), None);
    assert_eq!(decode(":", "web"), None);
    assert_eq!(decode(":", ""), None);
    assert_eq!(decode("ws-", ":00001"), None);
}

#[test]
fn decode_rejects_non_numeric_remainders() {
    assert_eq!(decode(":", ":"), None);
    assert_eq!(decode(":", ":abc"), None);
    assert_eq!(decode(":", ":12a"), None);
    assert_eq!(decode(":", ":-1"), None);
    assert_eq!(decode(":", ": 1"), None);
}

#[test]
fn decode_is_lenient_about_width() {
    assert_eq!(decode(":", ":7"), Some(7));
    assert_eq!(decode(":", ":000007"), Some(7));
    assert_eq!(decode(":", ":100000"), Some(100000));
}

#[test]
fn decode_accepts_a_leading_plus() {
    assert_eq!(decode(":", ":+7"), Some(7));
    assert_eq!(decode(":", ":+"), None);
    assert_eq!(decode(":", ":++7"), None);
}

#[test]
fn decode_with_empty_prefix() {
    assert_eq!(decode("", "00042"), Some(42));
    assert_eq!(decode("", "web"), None);
}

#[test]
fn parse_index_rejects_overflow() {
    assert_eq!(parse_index("99999999999999999999999999"), None);
    assert_eq!(parse_index(&usize::MAX.to_string()), Some(usize::MAX));
}

#[test]
fn parse_index_plain_values() {
    assert_eq!(parse_index("0"), Some(0));
    assert_eq!(parse_index("00321"), Some(321));
    assert_eq!(parse_index(""), None);
}
