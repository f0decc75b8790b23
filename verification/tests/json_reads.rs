use marrow_run::json::{
    decode_pointer_token, is_null, json_kind, json_value, parse_json, read_json,
    reject_negative_zero_integer, select_pointer, string_array, valid,
    JsonError, JsonScalar, JsonScalarOp,
};

const DOC: &str = r#" { "a": [1, -2, {"b": "x\ny", "c": null}], "t": true, "m~k/z": 7, "n": 1.5 } "#;

#[test]
fn accepts_only_bounded_json_without_negative_zero() {
    assert!(valid("{}", true));
    assert!(!valid("{}", false));
    assert!(!valid("{", true));
    assert!(!valid("-0", true));
    assert!(valid("-0.5", true));
    assert!(valid("\"-0\"", true));
    assert!(valid("[1e2, -10, 0]", true));
    assert_eq!(reject_negative_zero_integer("[-0]"), Err(()));
    assert_eq!(reject_negative_zero_integer("[-0e1, -01]"), Ok(()));
    assert_eq!(reject_negative_zero_integer(r#""a\"-0""#), Ok(()));
    assert_eq!(parse_json("  [1] ", true).as_deref(), Some("[1]"));
}

#[test]
fn pointer_tokens_unescape() {
    assert_eq!(decode_pointer_token("m~0k~1z"), Ok("m~k/z".to_string()));
    assert_eq!(decode_pointer_token("a~2"), Err(JsonError::PointerEscape));
    assert_eq!(decode_pointer_token("~"), Err(JsonError::PointerEscape));
}

#[test]
fn pointers_select_values() {
    assert_eq!(select_pointer(DOC, "").unwrap().unwrap(), DOC.trim());
    assert_eq!(select_pointer(DOC, "/a/1"), Ok(Some("-2".to_string())));
    assert_eq!(select_pointer(DOC, "/a/2/b"), Ok(Some("\"x\\ny\"".to_string())));
    assert_eq!(select_pointer(DOC, "/m~0k~1z"), Ok(Some("7".to_string())));
    assert_eq!(select_pointer(DOC, "/a/9"), Ok(None));
    assert_eq!(select_pointer(DOC, "/a/x"), Ok(None));
    assert_eq!(select_pointer(DOC, "/zz"), Ok(None));
    assert_eq!(select_pointer(DOC, "/t/0"), Ok(None));
    assert_eq!(select_pointer(DOC, "/a/01"), Err(JsonError::PointerLeadingZero));
    assert_eq!(select_pointer(DOC, "a"), Err(JsonError::PointerStart));
    assert_eq!(select_pointer(DOC, "/~9"), Err(JsonError::PointerEscape));
}

#[test]
fn typed_reads_of_selected_values() {
    assert_eq!(read_json(JsonScalarOp::Int, DOC, "/a/1", true), Ok(JsonScalar::Int(-2)));
    assert_eq!(
        read_json(JsonScalarOp::String, DOC, "/a/2/b", true),
        Ok(JsonScalar::Str("x\ny".into()))
    );
    assert_eq!(read_json(JsonScalarOp::Bool, DOC, "/t", true), Ok(JsonScalar::Bool(true)));
    assert_eq!(read_json(JsonScalarOp::Count, DOC, "/a", true), Ok(JsonScalar::Count(3)));
    assert_eq!(read_json(JsonScalarOp::Count, DOC, "", true), Ok(JsonScalar::Count(4)));
    assert_eq!(read_json(JsonScalarOp::Int, DOC, "/n", true), Err(JsonError::NotInt));
    assert_eq!(
        read_json(JsonScalarOp::Decimal, DOC, "/n", true),
        Ok(JsonScalar::Decimal("1.5".into()))
    );
    assert_eq!(read_json(JsonScalarOp::Int, DOC, "/t", true), Err(JsonError::WrongKind));
    assert_eq!(read_json(JsonScalarOp::Int, DOC, "/a/2/c", true), Err(JsonError::NullValue));
    assert_eq!(read_json(JsonScalarOp::Int, DOC, "/q", true), Err(JsonError::NoValue));
    assert_eq!(read_json(JsonScalarOp::Int, "{", "", true), Err(JsonError::InvalidJson));
    assert_eq!(json_value(JsonScalarOp::Int, "99999999999999999999"), Err(JsonError::NotInt));
    assert!(JsonError::NullValue.is_absent());
    assert!(!JsonError::NotInt.is_absent());
}

#[test]
fn kinds_and_null() {
    assert_eq!(json_kind(" \n\t[1]"), Some(b'['));
    assert_eq!(json_kind("   "), None);
    assert!(is_null(" null "));
    assert!(!is_null("nul"));
}

#[test]
fn string_literals_escape_like_serde_json() {
    assert_eq!(string_array(&["a\"b\\c\n\u{1}é".to_string()]), "[\"a\\\"b\\\\c\\n\\u0001é\"]");
    let items = vec!["x".to_string(), "y\"".to_string()];
    assert_eq!(string_array(&items), "[\"x\",\"y\\\"\"]");
    assert_eq!(string_array(&[]), "[]");
}

#[test]
fn operation_names() {
    assert_eq!(JsonScalarOp::from_name("count"), Some(JsonScalarOp::Count));
    assert_eq!(JsonScalarOp::from_name("float"), None);
    assert_eq!(JsonError::NoValue.message(), "JSON pointer selected no value");
}
