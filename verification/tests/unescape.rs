use re_bridge::strops::{check_unescaped_quotes, unescape, unescape_impl, StrType};

#[test]
fn test_unescape() {
    assert_eq!(unescape_impl("abc", StrType::Ignore).unwrap(), "abc");
    assert_eq!(unescape_impl("abc", StrType::Str).unwrap(), "abc");
    let err = unescape_impl(r"a😊\bc", StrType::Str).unwrap_err();
    assert_eq!(err.span.start.offset, 5);
    assert_eq!(err.span.end.offset, 7);
    assert_eq!(err.span_utf16.start.offset, 3);
    assert_eq!(err.span_utf16.end.offset, 5);
    assert_eq!(unescape_impl(r"a\nb", StrType::Str).unwrap(), "a\nb");
}

#[test]
fn test_unescaped_quotes() {
    assert!(check_unescaped_quotes(r#"abcd"#).is_ok());
    assert!(check_unescaped_quotes(r#"ab\"cd"#).is_ok());
    assert!(check_unescaped_quotes(r#"\""#).is_ok());
    assert!(check_unescaped_quotes(r#"\"ab\"cd\""#).is_ok());
    assert!(check_unescaped_quotes(r#"ab\\cd"#).is_ok());
    assert!(check_unescaped_quotes(r#"ab\\\"cd"#).is_ok());
    assert!(check_unescaped_quotes(r#"ab"cd"#).is_err());
    assert!(check_unescaped_quotes(r#""abcd"#).is_err());
    assert!(check_unescaped_quotes(r#"abcd""#).is_err());
    assert!(check_unescaped_quotes(r#"ab\\"cd"#).is_err());
    assert!(check_unescaped_quotes(r#"ab\\\\"cd"#).is_err());
    assert!(check_unescaped_quotes(r#"""#).is_err());
    let test_sp = check_unescaped_quotes(r#"ab"cd"#).unwrap_err();
    assert_eq!(test_sp.span.start.offset, 2);
    assert_eq!(test_sp.span.end.offset, 3);
}

#[test]
fn quote_after_a_wide_character() {
    // One backslash escapes the quote, whatever stands before the backslash.
    assert!(check_unescaped_quotes("é\\\"").is_ok());
    assert!(check_unescaped_quotes("😊\\\"").is_ok());
    let err = check_unescaped_quotes("😊\\\\\"").unwrap_err();
    assert_eq!(err.span.start.offset, 6);
    assert_eq!(err.span_utf16.start.offset, 4);
    assert_eq!(err.message, "unescaped '\"' in string");
    assert_eq!(err.source, None);
}

#[test]
fn raw_kind_leaves_escapes_alone() {
    assert_eq!(unescape_impl(r"a\nb", StrType::RawStr).unwrap(), r"a\nb");
    assert_eq!(unescape_impl(r"a\nb", StrType::RawStrHash2).unwrap(), r"a\nb");
    assert_eq!(unescape_impl(r"a\nb", StrType::Ignore).unwrap(), r"a\nb");
    assert_eq!(unescape_impl("a\"b", StrType::Ignore).unwrap(), "a\"b");
}

#[test]
fn raw_kind_refuses_its_closing_text() {
    let err = unescape_impl("ab\"cd", StrType::RawStr).unwrap_err();
    assert_eq!(err.message, "pattern '\"' may not be contained in raw strings");
    assert_eq!(err.span.start.offset, 2);
    assert_eq!(err.span.end.offset, 3);
    assert_eq!(err.span.start.line, 1);
    assert_eq!(err.span.end.line, 2);
    assert_eq!(err.source, None);

    assert!(unescape_impl("ab\"cd", StrType::RawStrHash1).is_ok());
    let err = unescape_impl("é\"\"#x\"#", StrType::RawStrHash1).unwrap_err();
    assert_eq!(err.message, "pattern '\"#' may not be contained in r# strings");
    assert_eq!(err.span.start.offset, 3);
    assert_eq!(err.span.end.offset, 5);
    assert_eq!(err.span_utf16.start.offset, 2);
    assert_eq!(err.span_utf16.end.offset, 4);

    assert!(unescape_impl("a\"#", StrType::RawStrHash2).is_ok());
    let err = unescape_impl("a\"##", StrType::RawStrHash2).unwrap_err();
    assert_eq!(err.message, "pattern '\"##' may not be contained in r## strings");
    let err = unescape_impl("\"###", StrType::RawStrHash3).unwrap_err();
    assert_eq!(err.message, "pattern '\"###' may not be contained in r### strings");
    assert_eq!(err.span.end.offset, 4);
    let err = unescape_impl("\n\"####", StrType::RawStrHash4).unwrap_err();
    assert_eq!(err.message, "pattern '\"####' may not be contained in r#### strings");
    assert_eq!(err.span.start.line, 2);
    assert_eq!(err.span.start.column, 0);
    assert_eq!(err.span.end.line, 3);
    assert_eq!(err.span.end.column, 5);
}

#[test]
fn standard_kind_decodes() {
    assert_eq!(unescape_impl(r#"\"\\\t\r\0\x41\u{1F600}\'"#, StrType::Str).unwrap(), "\"\\\t\r\0A😀'");
    // a backslash before a line feed swallows the white space that follows
    assert_eq!(unescape_impl("a\\\n   b", StrType::Str).unwrap(), "ab");
    // no backslash: nothing is looked at, not even a bare quote
    assert_eq!(unescape_impl("a\"b", StrType::Str).unwrap(), "a\"b");
    assert_eq!(unescape_impl("a\rb", StrType::Str).unwrap(), "a\rb");
}

#[test]
fn quote_check_comes_before_decoding() {
    let err = unescape_impl(r#"\q""#, StrType::Str).unwrap_err();
    assert_eq!(err.message, "unescaped '\"' in string");
    assert_eq!(err.span.start.offset, 2);
}

fn message_of(text: &str) -> (String, usize, usize) {
    let err = unescape_impl(text, StrType::Str).unwrap_err();
    (err.message.clone(), err.span.start.offset, err.span.end.offset)
}

#[test]
fn every_decode_error_has_its_message() {
    assert_eq!(
        message_of("ab\\"),
        ("escaped '\\' character without continuation".to_string(), 2, 3)
    );
    assert_eq!(message_of(r"\q"), ("invalid escape character".to_string(), 0, 2));
    assert_eq!(message_of("\\n\rx"), ("raw '\r' encountered".to_string(), 2, 3));
    assert_eq!(
        message_of(r"\x4"),
        ("numeric character escape is too short".to_string(), 0, 3)
    );
    assert_eq!(
        message_of(r"\x4g"),
        ("invalid character in numeric escape".to_string(), 0, 4)
    );
    assert_eq!(
        message_of(r"\xff"),
        ("character code in numeric escape is non-ascii".to_string(), 0, 4)
    );
    assert_eq!(
        message_of(r"\u1"),
        ("no brace in unicode escape: '\\u' not followed by '{'".to_string(), 0, 3)
    );
    assert_eq!(
        message_of(r"\u{g}"),
        ("non-hexadecimal value in '\\u{..}'".to_string(), 0, 4)
    );
    assert_eq!(message_of(r"\u{}"), ("empty unicode escape".to_string(), 0, 4));
    assert_eq!(message_of(r"\u{12"), ("no closing brace in '\\u{..}'".to_string(), 0, 5));
    assert_eq!(
        message_of(r"\u{_1}"),
        ("leading underscore unicode escape".to_string(), 0, 4)
    );
    assert_eq!(
        message_of(r"\u{1234567}"),
        ("more than 6 characters in '\\u{..}'".to_string(), 0, 11)
    );
    assert_eq!(
        message_of(r"\u{D800}"),
        (
            "lone surrogate in unicode escape: invalid in-bound unicode character code"
                .to_string(),
            0,
            8
        )
    );
    assert_eq!(
        message_of(r"\u{110000}"),
        ("out of bounds unicode character code".to_string(), 0, 10)
    );
}

#[test]
fn only_the_first_error_is_reported() {
    let (message, start, end) = message_of(r"a\q\xzz");
    assert_eq!(message, "invalid escape character");
    assert_eq!((start, end), (1, 3));
}

#[test]
fn unescape_by_name() {
    assert_eq!(unescape(r"a\nb", &None).unwrap(), r"a\nb");
    assert_eq!(unescape(r"a\nb", &Some("ignore".to_string())).unwrap(), r"a\nb");
    assert_eq!(unescape(r"a\nb", &Some("str".to_string())).unwrap(), "a\nb");
    assert_eq!(unescape(r"a\nb", &Some("raw".to_string())).unwrap(), r"a\nb");
    assert!(unescape("a\"b", &Some("raw".to_string())).is_err());
    assert!(unescape("a\"b", &Some("rawhash1".to_string())).is_ok());
    assert!(unescape("a\"#b", &Some("rawhash1".to_string())).is_err());
    assert!(unescape("a\"##b", &Some("rawhash2".to_string())).is_err());
    assert!(unescape("a\"###b", &Some("rawhash3".to_string())).is_err());
    assert!(unescape("a\"####b", &Some("rawhash4".to_string())).is_err());
    assert!(unescape("a\"###b", &Some("rawhash4".to_string())).is_ok());
}

#[test]
fn string_type_names() {
    assert_eq!(StrType::parse(None), Some(StrType::Ignore));
    assert_eq!(StrType::parse(Some("ignore")), Some(StrType::Ignore));
    assert_eq!(StrType::parse(Some("str")), Some(StrType::Str));
    assert_eq!(StrType::parse(Some("raw")), Some(StrType::RawStr));
    assert_eq!(StrType::parse(Some("rawhash1")), Some(StrType::RawStrHash1));
    assert_eq!(StrType::parse(Some("rawhash2")), Some(StrType::RawStrHash2));
    assert_eq!(StrType::parse(Some("rawhash3")), Some(StrType::RawStrHash3));
    assert_eq!(StrType::parse(Some("rawhash4")), Some(StrType::RawStrHash4));
    assert_eq!(StrType::parse(Some("rawhash5")), None);
    assert_eq!(StrType::parse(Some("")), None);
    assert_eq!(StrType::from(Some("raw")), StrType::RawStr);
    assert_eq!(StrType::default(), StrType::Ignore);
    assert_eq!(StrType::Ignore.to_string(), "unescaped");
    assert_eq!(StrType::Str.to_string(), "standard");
    assert_eq!(StrType::RawStr.to_string(), "raw");
    assert_eq!(StrType::RawStrHash1.to_string(), "r#");
    assert_eq!(StrType::RawStrHash2.to_string(), "r##");
    assert_eq!(StrType::RawStrHash3.to_string(), "r###");
    assert_eq!(StrType::RawStrHash4.to_string(), "r####");
}
