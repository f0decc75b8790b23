use marrow_run::hex;
use marrow_run::percent;

#[test]
fn round_trips_arbitrary_bytes() {
    for bytes in [
        Vec::new(),
        vec![0u8],
        vec![0xff, 0x00, 0x80],
        b"marrow".to_vec(),
    ] {
        assert_eq!(hex::decode(&hex::encode(&bytes)), Some(bytes));
    }
}

#[test]
fn decodes_either_case() {
    assert_eq!(hex::decode("ABcd"), Some(vec![0xab, 0xcd]));
}

#[test]
fn rejects_odd_length_and_non_hex() {
    assert_eq!(hex::decode("abc"), None);
    assert_eq!(hex::decode("zz"), None);
}

#[test]
fn hex_encode_is_lowercase_pairs() {
    assert_eq!(hex::encode(&[0x00, 0x0f, 0xab, 0xff]), "000fabff");
    assert_eq!(hex::encode(&[]), "");
}

#[test]
fn round_trips_reserved_and_non_ascii() {
    for text in ["", "plain", "a b/c", "café — 文字", "100%~done.test_v-1"] {
        assert_eq!(percent::decode(&percent::encode(text)).as_deref(), Some(text));
    }
}

#[test]
fn keeps_unreserved_literal_and_uppercases_hex() {
    assert_eq!(percent::encode("a b/é"), "a%20b%2F%C3%A9");
}

#[test]
fn plus_is_a_literal_plus() {
    assert_eq!(percent::decode("a+b").as_deref(), Some("a+b"));
}

#[test]
fn rejects_malformed_escapes_and_invalid_utf8() {
    assert_eq!(percent::decode("%4"), None);
    assert_eq!(percent::decode("%zz"), None);
    assert_eq!(percent::decode("%ff"), None);
}

#[test]
fn percent_decode_accepts_lowercase_hex() {
    assert_eq!(percent::decode("%c3%a9").as_deref(), Some("é"));
}
