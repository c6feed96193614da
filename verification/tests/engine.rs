use json_engine::{parse_json, JsonKind, JsonValue, PathError};

const JSON_OBJECT: &'static str = r#"{
    "nesting": { "inner object": {} },
    "an array": [1.5, true, null, 1e-6],
    "string with escaped double quotes" : "\"quick brown foxes\""
}"#;

const JSON_STRING: &'static str = "\"hello world\"";

#[test]
fn parser_test() {
    parse_json(JSON_OBJECT).expect("parse should succeed");
}

#[test]
fn parse_string() {
    if let JsonValue::String(s) = parse_json(JSON_STRING).expect("parse should succeed") {
        assert_eq!(s, "hello world");
    } else {
        panic!("expected a string")
    };
}

#[test]
fn parse_bools_and_null() {
    let bools_and_null = ["true", "false", "null"];
    let expected = [
        JsonValue::Bool(true),
        JsonValue::Bool(false),
        JsonValue::Null,
    ];

    for (&input, &ref expected) in bools_and_null.iter().zip(expected.iter()) {
        assert_eq!(parse_json(input).unwrap(), *expected);
    }
}

const JSON_ARRAY: &'static str = "[\"hello\", 123.0, false]";

#[test]
fn parse_array() {
    assert_eq!(
        parse_json(JSON_ARRAY).unwrap(),
        JsonValue::Array(vec![
            JsonValue::String("hello".to_string()),
            JsonValue::Number("123.0".to_string()),
            JsonValue::Bool(false)
        ])
    );
}

const TEST1: &'static str = r#"{"hello":"world","foo":[{"bar":"baz","a":1,"b":2}]}"#;

#[test]
fn get_value_by_path() {
    let root_value = parse_json(TEST1).unwrap();

    assert_eq!(
        *root_value.get_path("hello").unwrap(),
        JsonValue::String("world".to_string())
    );
    assert_eq!(
        *root_value.get_path("foo[0].bar").unwrap(),
        JsonValue::String("baz".to_string())
    );
    assert_eq!(
        *root_value.get_path("foo[0].a").unwrap(),
        JsonValue::Number("1".to_string())
    );
    assert_eq!(
        *root_value.get_path("foo[0].b").unwrap(),
        JsonValue::Number("2".to_string())
    );
}

#[test]
fn dense_format_scalars_and_array() {
    let v = parse_json("[1.5,true,null]").unwrap();
    assert_eq!(v.fmt_dense(), "[1.5,true,null]");
}

#[test]
fn pretty_format_empty_object() {
    let v = parse_json("{}").unwrap();
    assert_eq!(v.fmt_pretty(), "{}\n");
}

#[test]
fn pretty_format_small_object() {
    let v = parse_json("{\"k\":\"v\"}").unwrap();
    assert_eq!(v.fmt_pretty(), "{\n  \"k\": \"v\"\n}\n");
}

#[test]
fn pretty_format_nested() {
    let v = parse_json("{\"a\":[1,2],\"b\":{}}").unwrap();
    assert_eq!(v.fmt_pretty(), "{\n  \"a\": [\n    1,\n    2\n  ],\n  \"b\": {}\n}\n");
}

#[test]
fn index_out_of_bounds_leaves_tree_alone() {
    let mut v = parse_json("{\"foo\":[1]}").unwrap();
    let before = v.fmt_dense();
    let r = v.get_path_mut("foo[9]", JsonValue::Null);
    assert!(matches!(
        r,
        Err(PathError::IndexOutOfBounds { index: 9, length: 1 })
    ));
    assert_eq!(v.fmt_dense(), before);
}

#[test]
fn dense_round_trip() {
    let v = parse_json(JSON_OBJECT).unwrap();
    let dense = v.fmt_dense();
    let again = parse_json(&dense).unwrap();
    assert_eq!(v, again);
    assert_eq!(again.fmt_dense(), dense);
}

#[test]
fn pretty_round_trip_is_idempotent() {
    let v = parse_json(JSON_OBJECT).unwrap();
    let pretty = v.fmt_pretty();
    let again = parse_json(&pretty).unwrap();
    assert_eq!(v, again);
    assert_eq!(again.fmt_pretty(), pretty);
}

#[test]
fn first_match_wins_on_duplicate_keys() {
    let v = parse_json("{\"a\":1,\"a\":2}").unwrap();
    assert_eq!(
        *v.get_object_key("a").unwrap(),
        JsonValue::Number("1".to_string())
    );
}

#[test]
fn path_resolution_is_deterministic() {
    let v = parse_json(TEST1).unwrap();
    let first = v.get_path("foo[0].bar").unwrap();
    let second = v.get_path("foo[0].bar").unwrap();
    assert_eq!(first, second);
    assert_eq!(first.fmt_dense(), second.fmt_dense());
}

#[test]
fn replace_at_index_keeps_siblings() {
    let mut v = parse_json("{\"foo\":[1,2,3]}").unwrap();
    v.get_path_mut("foo[0]", JsonValue::Number("99".to_string()))
        .unwrap();
    assert_eq!(v.fmt_dense(), "{\"foo\":[99,2,3]}");
}

#[test]
fn replace_under_key_keeps_other_pairs() {
    let mut v = parse_json("{\"a\":1,\"b\":2}").unwrap();
    v.get_object_key_mut("b", JsonValue::Bool(true)).unwrap();
    assert_eq!(v.fmt_dense(), "{\"a\":1,\"b\":true}");
}

#[test]
fn replace_at_array_index_in_place() {
    let mut v = parse_json("[1,2,3]").unwrap();
    v.get_array_index_mut(1, JsonValue::Null).unwrap();
    assert_eq!(v.fmt_dense(), "[1,null,3]");
}

#[test]
fn identity_path_names_the_root() {
    let v = parse_json("[1,2]").unwrap();
    assert_eq!(v.get_path("").unwrap(), &v);
    assert_eq!(v.get_path(".").unwrap(), &v);
}

#[test]
fn malformed_path_is_a_syntax_error() {
    let v = parse_json(TEST1).unwrap();
    assert!(matches!(v.get_path("a..b"), Err(PathError::Syntax { .. })));
    assert!(matches!(v.get_path("foo[x]"), Err(PathError::Syntax { .. })));
    assert!(matches!(v.get_path("foo["), Err(PathError::Syntax { .. })));
}

#[test]
fn missing_key_is_reported_with_its_name() {
    let v = parse_json(TEST1).unwrap();
    match v.get_path("missing") {
        Err(PathError::KeyNotFound { key }) => assert_eq!(key, "missing"),
        other => panic!("expected KeyNotFound, got {:?}", other),
    }
}

#[test]
fn key_step_into_array_is_a_type_mismatch() {
    let v = parse_json("[1,2]").unwrap();
    assert!(matches!(
        v.get_path("foo"),
        Err(PathError::TypeMismatch { expected: JsonKind::Object, actual: JsonKind::Array })
    ));
}

#[test]
fn index_step_into_object_is_a_type_mismatch() {
    let v = parse_json("{\"a\":1}").unwrap();
    assert!(matches!(
        v.get_path("[0]"),
        Err(PathError::TypeMismatch { expected: JsonKind::Array, actual: JsonKind::Object })
    ));
}

#[test]
fn rejects_malformed_documents() {
    assert!(parse_json("{").is_err());
    assert!(parse_json("[1,").is_err());
    assert!(parse_json("{\"a\" 1}").is_err());
    assert!(parse_json("1 2").is_err());
    assert!(parse_json("01").is_err());
    assert!(parse_json("\"unterminated").is_err());
    assert!(parse_json("").is_err());
}

#[test]
fn accepts_whitespace_everywhere() {
    let v = parse_json(" [ 1 , { \"a\" : null } ] ").unwrap();
    assert_eq!(v.fmt_dense(), "[1,{\"a\":null}]");
}

#[test]
fn top_level_scalars_parse() {
    assert_eq!(
        parse_json("1e-6").unwrap(),
        JsonValue::Number("1e-6".to_string())
    );
    assert_eq!(
        parse_json("-0.5").unwrap(),
        JsonValue::Number("-0.5".to_string())
    );
}

#[test]
fn escapes_decode_on_parse_and_encode_on_output() {
    let v = parse_json("\"a\\nb\\t\\\"c\\\"\"").unwrap();
    assert_eq!(v, JsonValue::String("a\nb\t\"c\"".to_string()));
    assert_eq!(v.fmt_dense(), "\"a\\nb\\t\\\"c\\\"\"");
}

#[test]
fn unicode_escapes_decode_to_their_characters() {
    assert_eq!(
        parse_json("\"\\u0041\"").unwrap(),
        JsonValue::String("A".to_string())
    );
    assert_eq!(
        parse_json("\"\\ud83d\\ude00\"").unwrap(),
        JsonValue::String("\u{1f600}".to_string())
    );
    assert!(parse_json("\"\\ud83d\"").is_err());
}

#[test]
fn control_characters_round_trip_through_escapes() {
    let v = parse_json("\"\\u0001\"").unwrap();
    assert_eq!(v, JsonValue::String("\u{1}".to_string()));
    assert_eq!(v.fmt_dense(), "\"\\u0001\"");
    let again = parse_json(&v.fmt_dense()).unwrap();
    assert_eq!(v, again);
}

#[test]
fn empty_containers_parse_to_zero_length() {
    assert_eq!(parse_json("[]").unwrap(), JsonValue::Array(vec![]));
    assert_eq!(parse_json("{}").unwrap(), JsonValue::Object(vec![]));
}
