use re_bridge::engine::BuildErrorKind;
use re_bridge::error::{
    escape_error_message, Error, EscapeKind, Failure, Position, ReSyntax, Span, SyntaxFault,
    Unescape,
};
use re_bridge::lexer::escape_kind;
use re_bridge::flags::Flags;
use re_bridge::strops::StrType;

#[test]
fn escape_kinds_by_number_and_their_messages() {
    let expected = [
        (2, EscapeKind::LoneSlash, "escaped '\\' character without continuation"),
        (3, EscapeKind::InvalidEscape, "invalid escape character"),
        (4, EscapeKind::BareCarriageReturn, "raw '\r' encountered"),
        (5, EscapeKind::BareCarriageReturnInRawString, "raw '\r' encountered"),
        (
            6,
            EscapeKind::EscapeOnlyChar,
            "unescaped character that was expected to be escaped",
        ),
        (7, EscapeKind::TooShortHexEscape, "numeric character escape is too short"),
        (8, EscapeKind::InvalidCharInHexEscape, "invalid character in numeric escape"),
        (
            9,
            EscapeKind::OutOfRangeHexEscape,
            "character code in numeric escape is non-ascii",
        ),
        (
            10,
            EscapeKind::NoBraceInUnicodeEscape,
            "no brace in unicode escape: '\\u' not followed by '{'",
        ),
        (
            11,
            EscapeKind::InvalidCharInUnicodeEscape,
            "non-hexadecimal value in '\\u{..}'",
        ),
        (12, EscapeKind::EmptyUnicodeEscape, "empty unicode escape"),
        (13, EscapeKind::UnclosedUnicodeEscape, "no closing brace in '\\u{..}'"),
        (
            14,
            EscapeKind::LeadingUnderscoreUnicodeEscape,
            "leading underscore unicode escape",
        ),
        (15, EscapeKind::OverlongUnicodeEscape, "more than 6 characters in '\\u{..}'"),
        (
            16,
            EscapeKind::LoneSurrogateUnicodeEscape,
            "lone surrogate in unicode escape: invalid in-bound unicode character code",
        ),
        (17, EscapeKind::OutOfRangeUnicodeEscape, "out of bounds unicode character code"),
    ];
    for (code, kind, message) in expected {
        assert_eq!(escape_kind(code), kind);
        assert_eq!(escape_error_message(&kind), message);
    }
}

#[test]
fn unescape_error_from_a_range() {
    let err = Unescape::from(("a\n😀\\q", 6..8, EscapeKind::InvalidEscape));
    assert_eq!(err.message, "invalid escape character");
    assert_eq!(err.span, Span::new(Position::new(6, 2, 4), Position::new(8, 3, 6)));
    assert_eq!(err.span_utf16, Span::new(Position::new(4, 2, 2), Position::new(6, 3, 4)));
    assert_eq!(err.source, None);
}

#[test]
fn pattern_error() {
    let err = Unescape::from_pat("😀\"#", "\"#", 4, StrType::RawStrHash1);
    assert_eq!(err.message, "pattern '\"#' may not be contained in r# strings");
    assert_eq!(err.span, Span::new(Position::new(4, 1, 4), Position::new(6, 2, 6)));
    assert_eq!(err.span_utf16, Span::new(Position::new(2, 1, 2), Position::new(4, 2, 4)));
    assert_eq!(err.source, None);
    let plain = Unescape::default();
    assert_eq!(plain.message, "");
    assert_eq!(plain.span, Span::default());
    assert_eq!(plain.span_utf16, Span::default());
    assert_eq!(plain.source, None);
}

#[test]
fn an_error_takes_its_source() {
    let err = Unescape::from_pat("a\"", "\"", 1, StrType::RawStr);
    match Error::from((err, "text")) {
        Error::Unescape(err) => {
            assert_eq!(err.source, Some("text"));
            assert_eq!(err.message, "pattern '\"' may not be contained in raw strings");
            assert_eq!(err.span.start.offset, 1);
        }
        other => panic!("{:?}", other),
    }
    let err = Box::new(Unescape::from_pat("a\"", "\"", 1, StrType::RawStr));
    match Error::from((err, "rep")) {
        Error::Unescape(err) => assert_eq!(err.source, Some("rep")),
        other => panic!("{:?}", other),
    }
    let err = Box::new(Unescape::from_pat("a\"", "\"", 1, StrType::RawStr));
    match Failure::from_unescape(err, "reg_exp") {
        Failure::Reported(Error::Unescape(err)) => assert_eq!(err.source, Some("reg_exp")),
        other => panic!("{:?}", other),
    }
}

#[test]
fn matcher_errors_by_kind() {
    assert!(Error::from_build(BuildErrorKind::Syntax, "x".to_string()).is_none());
    match Error::from_build(BuildErrorKind::CompiledTooBig, "too big".to_string()) {
        Some(Error::RegexCompiledTooBig(message)) => assert_eq!(message, "too big"),
        other => panic!("{:?}", other),
    }
    match Error::from_build(BuildErrorKind::Unspecified, "odd".to_string()) {
        Some(Error::RegexUnspecified(message)) => assert_eq!(message, "odd"),
        other => panic!("{:?}", other),
    }
}

fn fault(pattern: &str, span: Span, auxiliary_span: Option<Span>) -> SyntaxFault {
    SyntaxFault {
        kind: "Kind".to_string(),
        message: "message".to_string(),
        pattern: pattern.to_string(),
        span,
        auxiliary_span,
    }
}

#[test]
fn syntax_error_from_a_fault() {
    let none = ReSyntax::from_fault(None).unwrap();
    assert_eq!(none.kind, "unspecified error");
    assert_eq!(none.message, "");
    assert_eq!(none.pattern, "");
    assert_eq!(none.span, Span::default());
    assert_eq!(none.span_utf16, Span::default());
    assert_eq!(none.auxiliary_span, None);
    assert_eq!(none.auxiliary_span_utf16, None);

    let span = Span::new(Position::new(4, 1, 2), Position::new(5, 1, 3));
    let aux = Span::new(Position::new(6, 2, 1), Position::new(10, 2, 2));
    let err = ReSyntax::from_fault(Some(fault("😀a\n😀", span, Some(aux)))).unwrap();
    assert_eq!(err.kind, "Kind");
    assert_eq!(err.message, "message");
    assert_eq!(err.pattern, "😀a\n😀");
    assert_eq!(err.span, span);
    assert_eq!(err.span_utf16, Span::new(Position::new(2, 1, 3), Position::new(3, 1, 4)));
    assert_eq!(err.auxiliary_span, Some(aux));
    assert_eq!(
        err.auxiliary_span_utf16,
        Some(Span::new(Position::new(4, 2, 1), Position::new(6, 2, 3)))
    );
}

#[test]
fn syntax_error_from_a_fault_that_does_not_fit() {
    let good = Span::new(Position::new(0, 1, 1), Position::new(1, 1, 2));
    assert!(ReSyntax::from_fault(Some(fault("ab", good, None))).is_some());
    // a line that the pattern does not have
    let line = Span::new(Position::new(0, 1, 1), Position::new(2, 2, 1));
    assert!(ReSyntax::from_fault(Some(fault("a\n", line, None))).is_none());
    // an offset inside a code point
    let inside = Span::new(Position::new(1, 1, 1), Position::new(2, 1, 2));
    assert!(ReSyntax::from_fault(Some(fault("é", inside, None))).is_none());
    // an offset beyond the pattern
    let beyond = Span::new(Position::new(0, 1, 1), Position::new(3, 1, 2));
    assert!(ReSyntax::from_fault(Some(fault("ab", beyond, None))).is_none());
    // a column or a line of zero
    let column = Span::new(Position::new(0, 1, 0), Position::new(1, 1, 2));
    assert!(ReSyntax::from_fault(Some(fault("ab", column, None))).is_none());
    let zero = Span::new(Position::new(0, 0, 1), Position::new(1, 1, 2));
    assert!(ReSyntax::from_fault(Some(fault("ab", zero, None))).is_none());
    // a second span that does not fit
    assert!(ReSyntax::from_fault(Some(fault("ab", good, Some(beyond)))).is_none());
    // nothing fits an empty pattern
    assert!(ReSyntax::from_fault(Some(fault("", good, None))).is_none());
}

fn unicode() -> Flags {
    Flags::parse("u").unwrap()
}

fn said(kind: &str, message: &str) -> Option<(String, String)> {
    Some((kind.to_string(), message.to_string()))
}

#[test]
fn span_from_six_numbers() {
    assert_eq!(
        Span::from_raw((6, 5, 4, 3, 2, 1)),
        Span::new(Position::new(6, 5, 4), Position::new(3, 2, 1))
    );
}

#[test]
fn read_a_parse_error() {
    let kind = "GroupUnclosed".to_string();
    let message = "unclosed group".to_string();
    let fault = SyntaxFault::read("é(a", &unicode(), kind, message).unwrap();
    assert_eq!(fault.kind, "GroupUnclosed");
    assert_eq!(fault.message, "unclosed group");
    assert_eq!(fault.pattern, "é(a");
    assert_eq!(fault.span, Span::new(Position::new(2, 1, 2), Position::new(3, 1, 3)));
    assert_eq!(fault.auxiliary_span, None);

    let pattern = "(?P<n>a)\n(?P<n>b)";
    let fault = SyntaxFault::read(pattern, &unicode(), String::new(), String::new()).unwrap();
    assert_eq!(fault.pattern, pattern);
    assert_eq!(fault.span, Span::new(Position::new(13, 2, 5), Position::new(14, 2, 6)));
    assert_eq!(
        fault.auxiliary_span,
        Some(Span::new(Position::new(4, 1, 5), Position::new(5, 1, 6)))
    );
}

#[test]
fn read_a_translate_error() {
    let pattern = r"a\p{Quux}";
    let fault = SyntaxFault::read(pattern, &unicode(), "k".to_string(), "m".to_string()).unwrap();
    assert_eq!(fault.kind, "k");
    assert_eq!(fault.message, "m");
    assert_eq!(fault.span, Span::new(Position::new(1, 1, 2), Position::new(9, 1, 10)));
    assert_eq!(fault.auxiliary_span, None);
    // without the `u` flag the letter beyond ASCII is what is wrong
    let fault = SyntaxFault::read("aé", &Flags::default(), "k".to_string(), "m".to_string());
    assert_eq!(
        fault.unwrap().span,
        Span::new(Position::new(1, 1, 2), Position::new(3, 1, 3))
    );
}

#[test]
fn nothing_to_read_of_a_pattern_that_passes() {
    assert!(SyntaxFault::read("a+", &unicode(), String::new(), String::new()).is_none());
}

#[test]
fn what_is_read_is_well_placed() {
    let patterns = [
        "(",
        "é(a",
        "a\n)",
        "😀[z-a]",
        "(?x)\n\n a{2,1}",
        "(?P<n>a)(?P<n>b)",
        r"é\p{Quux}",
        "(?\n",
    ];
    for pattern in patterns {
        let fault = SyntaxFault::read(pattern, &unicode(), String::new(), String::new()).unwrap();
        assert_eq!(fault.pattern, pattern);
        let mut spans = vec![fault.span];
        spans.extend(fault.auxiliary_span);
        for span in spans {
            assert!(span.start.offset <= span.end.offset);
            assert!(pattern.is_char_boundary(span.start.offset));
            assert!(pattern.is_char_boundary(span.end.offset));
            assert!(span.start.line >= 1 && span.start.column >= 1);
            assert!(span.end.line >= 1 && span.end.column >= 1);
        }
    }
}

#[test]
fn syntax_error_from_what_the_parser_says() {
    let err = ReSyntax::from("😀(a", &unicode(), said("GroupUnclosed", "unclosed group")).unwrap();
    assert_eq!(err.kind, "GroupUnclosed");
    assert_eq!(err.message, "unclosed group");
    assert_eq!(err.pattern, "😀(a");
    assert_eq!(err.span, Span::new(Position::new(4, 1, 2), Position::new(5, 1, 3)));
    assert_eq!(err.span_utf16, Span::new(Position::new(2, 1, 3), Position::new(3, 1, 4)));
    assert_eq!(err.auxiliary_span, None);
    assert_eq!(err.auxiliary_span_utf16, None);
    // a span that ends on a line that the pattern does not have
    assert!(ReSyntax::from("(?\n", &unicode(), said("k", "m")).is_none());
    // nothing said: an error that says no more than that it is unspecified
    let bare = ReSyntax::from("(", &unicode(), None).unwrap();
    assert_eq!(bare.kind, "unspecified error");
    assert_eq!(bare.pattern, "");
    assert_eq!(bare.span, Span::default());
}

#[test]
fn diagnostic_from_what_the_parser_says() {
    match Error::from_syntax("😀(a", &unicode(), said("GroupUnclosed", "unclosed group")) {
        Some(Error::RegexSyntax(err)) => {
            assert_eq!(err.kind, "GroupUnclosed");
            assert_eq!(err.span_utf16.start.offset, 2);
        }
        other => panic!("{:?}", other),
    }
    assert!(Error::from_syntax("(?\n", &unicode(), said("k", "m")).is_none());
    match Failure::from_syntax("😀(a", &unicode(), said("GroupUnclosed", "unclosed group")) {
        Failure::Reported(Error::RegexSyntax(err)) => {
            assert_eq!(err.message, "unclosed group");
            assert_eq!(err.span, Span::new(Position::new(4, 1, 2), Position::new(5, 1, 3)));
            assert_eq!(err.span_utf16, Span::new(Position::new(2, 1, 3), Position::new(3, 1, 4)));
        }
        other => panic!("{:?}", other),
    }
    assert!(matches!(
        Failure::from_syntax("(?\n", &unicode(), said("k", "m")),
        Failure::Upstream
    ));
    match Failure::from_build(BuildErrorKind::CompiledTooBig, "big".to_string()) {
        Failure::Reported(Error::RegexCompiledTooBig(message)) => assert_eq!(message, "big"),
        other => panic!("{:?}", other),
    }
    assert!(matches!(
        Failure::from_build(BuildErrorKind::Syntax, "x".to_string()),
        Failure::Upstream
    ));
}
