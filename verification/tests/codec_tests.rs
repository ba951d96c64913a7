use jintemplify::filter::{from_json_filter, from_toml_filter, from_yaml_filter, to_object};
use jintemplify::{from_json, to_json, value_to_str, Error, Value};

fn s(text: &str) -> Value {
    Value::String(text.to_string())
}

#[test]
fn test_from_json_filter_valid() {
    let json_str = s(r#"{"key": "value"}"#);
    let result = from_json_filter(&json_str).unwrap();
    match result {
        Value::Object(_) => {
            let v = result.get("key").unwrap();
            assert_eq!(to_json(v), r#""value""#);
        },
        _ => panic!("Expected an Object!"),
    }
}

#[test]
fn test_from_json_filter_invalid() {
    let json_str = s(r#"{"key": "value"#);
    assert!(from_json_filter(&json_str).is_err());
}

#[test]
fn test_from_yaml_filter_valid() {
    let yaml_str = s("key: value\n");
    let result = from_yaml_filter(&yaml_str).unwrap();
    match result {
        Value::Object(_) => {
            let v = result.get("key").unwrap();
            assert_eq!(to_json(v), r#""value""#);
        },
        _ => panic!("Expected an Object!"),
    }
}

#[test]
fn test_from_yaml_filter_invalid() {
    let yaml_str = s("key: value:");
    assert!(from_yaml_filter(&yaml_str).is_err());
}

#[test]
fn test_from_toml_filter_valid() {
    let toml_str = s("key = \"value\"\n");
    let result = from_toml_filter(&toml_str).unwrap();
    match result {
        Value::Object(_) => {
            let v = result.get("key").unwrap();
            assert_eq!(to_json(v), r#""value""#);
        },
        _ => panic!("Expected an Object!"),
    }
}

#[test]
fn test_from_toml_filter_invalid() {
    let toml_str = s("key = value\n");
    assert!(from_toml_filter(&toml_str).is_err());
}

#[test]
fn to_json_scalars() {
    assert_eq!(to_json(&Value::Null), "null");
    assert_eq!(to_json(&Value::Bool(true)), "true");
    assert_eq!(to_json(&Value::Bool(false)), "false");
    assert_eq!(to_json(&Value::Number(42)), "42");
    assert_eq!(to_json(&Value::Number(-7)), "-7");
    assert_eq!(to_json(&Value::Number(i64::MIN)), "-9223372036854775808");
    assert_eq!(to_json(&s("hi")), r#""hi""#);
}

#[test]
fn to_json_escapes() {
    let v = s("a\"b\\c\nd\te\u{1}");
    assert_eq!(to_json(&v), "\"a\\\"b\\\\c\\nd\\te\\u0001\"");
}

#[test]
fn to_json_nested() {
    let v = Value::Object(vec![
        ("xs".to_string(), Value::Array(vec![Value::Number(1), Value::Null, s("two")])),
        ("ok".to_string(), Value::Bool(false)),
    ]);
    assert_eq!(to_json(&v), r#"{"xs":[1,null,"two"],"ok":false}"#);
}

#[test]
fn from_json_parses_document() {
    let v = from_json(r#" { "a" : [ 1 , -2 ] , "b" : "x\ny" } "#).unwrap();
    assert_eq!(to_json(&v), "{\"a\":[1,-2],\"b\":\"x\\ny\"}");
}

#[test]
fn from_json_rejects_bad_documents() {
    assert!(matches!(from_json("{"), Err(Error::MarshalError)));
    assert!(matches!(from_json("1.5"), Err(Error::MarshalError)));
    assert!(matches!(from_json("1e3"), Err(Error::MarshalError)));
    assert!(matches!(from_json("18446744073709551615"), Err(Error::MarshalError)));
    assert!(matches!(from_json("[1, 2,]"), Err(Error::MarshalError)));
    assert!(matches!(from_json("007"), Err(Error::MarshalError)));
    assert!(matches!(from_json("{\"a\": 1,}"), Err(Error::MarshalError)));
    assert!(matches!(from_json(""), Err(Error::MarshalError)));
    assert!(matches!(from_json("null null"), Err(Error::MarshalError)));
}

#[test]
fn from_json_number_bounds() {
    assert_eq!(to_json(&from_json("9223372036854775807").unwrap()), "9223372036854775807");
    assert_eq!(to_json(&from_json("-9223372036854775808").unwrap()), "-9223372036854775808");
    assert!(from_json("9223372036854775808").is_err());
}

#[test]
fn round_trip_preserves_values() {
    let v = Value::Object(vec![
        ("name".to_string(), s("combine")),
        ("params".to_string(), Value::Array(vec![
            Value::Object(vec![("name".to_string(), s("var1"))]),
            Value::Number(-12),
            Value::Bool(true),
            Value::Null,
        ])),
        ("text".to_string(), s("line1\nline2\t\"quoted\"")),
    ]);
    let text = to_json(&v);
    let back = from_json(&text).unwrap();
    assert_eq!(to_json(&back), text);
    let params = back.get("params").unwrap();
    match params {
        Value::Array(items) => assert_eq!(items.len(), 4),
        _ => panic!("expected array"),
    }
}

#[test]
fn surrogate_pair_escape_combines() {
    let v = from_json("\"\\uD83D\\uDE00\"").unwrap();
    match v {
        Value::String(b) => assert_eq!(b, "\u{1F600}"),
        _ => panic!("expected string"),
    }
}

#[test]
fn lone_surrogate_escape_is_rejected() {
    assert!(matches!(from_json("\"\\uD83D\""), Err(Error::MarshalError)));
    assert!(matches!(from_json("\"\\uDE00\""), Err(Error::MarshalError)));
    assert!(matches!(from_json("\"\\uD83D\\u0041\""), Err(Error::MarshalError)));
}

#[test]
fn round_trip_unicode_escape() {
    let v = s("bell\u{7}end");
    let text = to_json(&v);
    assert_eq!(text, "\"bell\\u0007end\"");
    let back = from_json(&text).unwrap();
    match back {
        Value::String(b) => assert_eq!(b, "bell\u{7}end"),
        _ => panic!("expected string"),
    }
}

#[test]
fn value_to_str_cases() {
    assert_eq!(value_to_str(&Value::Null), "null");
    assert_eq!(value_to_str(&Value::Bool(true)), "true");
    assert_eq!(value_to_str(&Value::Number(-3)), "-3");
    assert_eq!(value_to_str(&s("raw text")), "raw text");
    assert_eq!(value_to_str(&Value::Array(vec![Value::Number(1), s("a")])), r#"[1,"a"]"#);
    assert_eq!(
        value_to_str(&Value::Object(vec![("k".to_string(), Value::Number(2))])),
        r#"{"k":2}"#
    );
}

#[test]
fn to_object_pairs_array() {
    let v = Value::Array(vec![s("key1"), Value::Number(1), s("key2"), s("two")]);
    let obj = to_object(&v).unwrap();
    assert_eq!(to_json(&obj), r#"{"key1":1,"key2":"two"}"#);
}

#[test]
fn to_object_rejects_bad_shapes() {
    let odd = Value::Array(vec![s("key1")]);
    assert!(matches!(to_object(&odd), Err(Error::MarshalError)));
    let bad_key = Value::Array(vec![Value::Number(1), Value::Number(2)]);
    assert!(matches!(to_object(&bad_key), Err(Error::MarshalError)));
    assert!(matches!(to_object(&s("nope")), Err(Error::MarshalError)));
}

#[test]
fn from_yaml_rejects_non_object() {
    assert!(from_yaml_filter(&s("5")).is_err());
    assert!(from_yaml_filter(&Value::Number(5)).is_err());
}

#[test]
fn object_lookup_takes_latest_binding() {
    let v = Value::Object(vec![
        ("k".to_string(), Value::Number(1)),
        ("k".to_string(), Value::Number(2)),
    ]);
    assert_eq!(to_json(v.get("k").unwrap()), "2");
    assert!(v.get("missing").is_none());
}

#[test]
fn to_object_duplicate_key_reads_as_later_value() {
    let v = Value::Array(vec![s("k"), s("a"), s("k"), s("b")]);
    let obj = to_object(&v).unwrap();
    assert_eq!(to_json(obj.get("k").unwrap()), r#""b""#);
}

#[test]
fn parsed_duplicate_key_reads_as_later_value() {
    let v = from_json(r#"{"k": "a", "k": "b"}"#).unwrap();
    assert_eq!(to_json(v.get("k").unwrap()), r#""b""#);
}
