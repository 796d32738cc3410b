use arson_json::{
    apply_transform, escape, minify, prettify, strip_double_newlines, unescape, TransformError,
    TransformKind,
};

#[test]
fn escape_wraps_and_escapes() {
    assert_eq!(escape("{\"a\":1}"), "\"{\\\"a\\\":1}\"");
}

#[test]
fn escape_control_characters() {
    assert_eq!(escape("a\nb\t\u{1}\\"), "\"a\\nb\\t\\u0001\\\\\"");
    assert_eq!(escape(""), "\"\"");
}

#[test]
fn unescape_inverts_escape() {
    for t in ["", "{\"a\":1}", "line\nbreak", "\u{0}\u{1f}\u{7f}", "é😀\\/\"", "  spaced  "] {
        assert_eq!(unescape(&escape(t)).unwrap(), t, "{:?}", t);
    }
}

#[test]
fn unescape_without_quotes_uses_second_phase() {
    assert_eq!(unescape("{\\\"a\\\":1}").unwrap(), "{\"a\":1}");
    assert_eq!(unescape("\"{\\\"a\\\":1}\"").unwrap(), "{\"a\":1}");
}

#[test]
fn unescape_refuses_what_is_not_escaped() {
    match unescape("\"abc") {
        Err(TransformError::NotEscapedJson(e)) => assert!(!e.message.is_empty()),
        other => panic!("unexpected {:?}", other),
    }
    assert!(matches!(unescape("a\\qb"), Err(TransformError::NotEscapedJson(_))));
}

#[test]
fn strip_double_newlines_is_one_pass() {
    assert_eq!(strip_double_newlines("a\n\n\n b"), "a\n b");
    assert_eq!(strip_double_newlines("a\n\n\n\nb"), "ab");
    assert_eq!(strip_double_newlines("x\ny"), "x\ny");
    assert_eq!(strip_double_newlines(""), "");
}

#[test]
fn prettify_formats_with_two_spaces() {
    assert_eq!(prettify("{\"a\":[1,2]}").unwrap(), "{\n  \"a\": [\n    1,\n    2\n  ]\n}");
}

#[test]
fn minify_removes_whitespace() {
    assert_eq!(minify("{ \"a\" :\n [ 1 , 2 ] }").unwrap(), "{\"a\":[1,2]}");
}

#[test]
fn prettify_and_minify_refuse_invalid_json() {
    assert!(matches!(prettify("{bad"), Err(TransformError::InvalidJson(_))));
    assert!(matches!(minify("[1,"), Err(TransformError::InvalidJson(_))));
}

#[test]
fn prettify_and_minify_are_idempotent() {
    for t in ["{\"a\":1,\"a\":{\"b\":[1,2,[]]}}", "[ ]", "\"s\\n\"", "3.0e2"] {
        let m = minify(t).unwrap();
        assert_eq!(minify(&m).unwrap(), m);
        let p = prettify(t).unwrap();
        assert_eq!(prettify(&p).unwrap(), p);
    }
}

#[test]
fn duplicate_keys_survive_prettify() {
    assert_eq!(prettify("{\"a\":1,\"a\":2}").unwrap(), "{\n  \"a\": 1,\n  \"a\": 2\n}");
}

#[test]
fn apply_transform_dispatches() {
    assert_eq!(apply_transform(TransformKind::Minify, "[ 1 ]").unwrap(), "[1]");
    assert_eq!(apply_transform(TransformKind::Prettify, "[1]").unwrap(), "[\n  1\n]");
    assert_eq!(apply_transform(TransformKind::Escape, "a\"b").unwrap(), "\"a\\\"b\"");
    assert_eq!(apply_transform(TransformKind::Unescape, "\"a\\\"b\"").unwrap(), "a\"b");
    assert_eq!(apply_transform(TransformKind::StripDoubleNewlines, "a\n\nb").unwrap(), "ab");
    assert!(apply_transform(TransformKind::Minify, "nope").is_err());
}
