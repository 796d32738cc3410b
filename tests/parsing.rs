use arson_json::{parse, serialize_compact, serialize_pretty, JsonValue, MAX_DEPTH};

#[test]
fn object_members_keep_order_and_duplicates() {
    let v = parse(" { \"b\" : 1 , \"a\" : 2 , \"b\" : 3 } ").unwrap();
    assert_eq!(
        v,
        JsonValue::Object(vec![
            ("b".to_string(), JsonValue::Number("1".to_string())),
            ("a".to_string(), JsonValue::Number("2".to_string())),
            ("b".to_string(), JsonValue::Number("3".to_string())),
        ])
    );
}

#[test]
fn numbers_keep_their_token() {
    for t in ["0", "-0", "12", "1.0", "1.50", "1e10", "1E-2", "-3.25e+07", "123456789012345678901234567890"] {
        assert_eq!(parse(t).unwrap(), JsonValue::Number(t.to_string()), "{}", t);
    }
}

#[test]
fn malformed_numbers_are_refused() {
    for t in ["01", "1.", ".5", "-", "+1", "1e", "1e+", "--1", "1.2.3", "0x10"] {
        assert!(parse(t).is_err(), "{}", t);
    }
}

#[test]
fn string_escapes_are_decoded() {
    let v = parse("\"a\\\"\\\\\\/\\b\\f\\n\\r\\t\\u00e9\\ud83d\\ude00\"").unwrap();
    assert_eq!(v, JsonValue::Str("a\"\\/\u{8}\u{c}\n\r\t\u{e9}\u{1f600}".to_string()));
}

#[test]
fn bad_strings_are_refused() {
    for t in ["\"abc", "\"\\x\"", "\"\\u12\"", "\"\\ud800\"", "\"\\udc00\"", "\"a\nb\""] {
        assert!(parse(t).is_err(), "{:?}", t);
    }
}

#[test]
fn literals_and_trailing_text() {
    assert_eq!(parse("true").unwrap(), JsonValue::Bool(true));
    assert_eq!(parse("false").unwrap(), JsonValue::Bool(false));
    assert_eq!(parse(" null \n").unwrap(), JsonValue::Null);
    for t in ["", "   ", "tru", "nul", "true false", "[1,]", "[1 2]", "{\"a\"}", "{\"a\":1,}", "{a:1}", "[", "]"] {
        assert!(parse(t).is_err(), "{:?}", t);
    }
}

#[test]
fn parse_error_has_a_message() {
    let e = parse("[1,]").unwrap_err();
    assert!(e.message.contains("position 3"), "{}", e.message);
    let e = parse("[1,").unwrap_err();
    assert_eq!(e.message, "unexpected end of input");
}

#[test]
fn nesting_up_to_the_limit_is_accepted() {
    let ok = format!("{}{}", "[".repeat(MAX_DEPTH), "]".repeat(MAX_DEPTH));
    assert!(parse(&ok).is_ok());
    let deep = format!("{}{}", "[".repeat(MAX_DEPTH + 1), "]".repeat(MAX_DEPTH + 1));
    assert!(parse(&deep).is_err());
}

#[test]
fn compact_and_pretty_round_trip() {
    for t in [
        "{\"a\":1,\"a\":[true,null,{}],\"s\":\"q\\\"\\n\\u0001\"}",
        "[[],[[1.5e3]],{\"\":\"\"}]",
        "\"x\"",
        "-0.0",
    ] {
        let v = parse(t).unwrap();
        assert_eq!(parse(&serialize_compact(&v)).unwrap(), v, "{}", t);
        assert_eq!(parse(&serialize_pretty(&v)).unwrap(), v, "{}", t);
    }
}

#[test]
fn pretty_layout_is_exact() {
    let v = parse("{\"a\":[1,2],\"b\":{},\"c\":[]}").unwrap();
    assert_eq!(
        serialize_pretty(&v),
        "{\n  \"a\": [\n    1,\n    2\n  ],\n  \"b\": {},\n  \"c\": []\n}"
    );
}

#[test]
fn compact_layout_is_exact() {
    let v = parse(" [ 1 , { \"k\" : \"v\\t\" } , null ] ").unwrap();
    assert_eq!(serialize_compact(&v), "[1,{\"k\":\"v\\t\"},null]");
}
