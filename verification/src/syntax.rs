//! The syntax parser of patterns, which is `regex_syntax`'s.

use regex_syntax::Error as SyntaxError;
use vstd::prelude::*;
use vstd::utf8::*;

use crate::flags::Flags;

verus! {

/// The six numbers of a span of the parser: offset, line and column of its
/// start, then of its end.
pub type RawSpan = (usize, usize, usize, usize, usize, usize);

/// Whether the six numbers `raw` are a span in the pattern `bytes`: a range
/// of it between two code-point boundaries, the start not after the end, with
/// lines and columns that count from 1.
pub open spec fn raw_span_placed(bytes: Seq<u8>, raw: RawSpan) -> bool {
    &&& raw.0 <= raw.3
    &&& is_char_boundary(bytes, raw.0 as int)
    &&& is_char_boundary(bytes, raw.3 as int)
    &&& raw.1 >= 1
    &&& raw.2 >= 1
    &&& raw.4 >= 1
    &&& raw.5 >= 1
}

/// What the parser says of a pattern, as text.
pub open spec fn said_view(said: Option<(String, String)>) -> Option<(Seq<char>, Seq<char>)> {
    match said {
        Some(texts) => Some((texts.0@, texts.1@)),
        None => None,
    }
}

/// Whether the syntax parser passes `pattern` under `flags`.
pub uninterp spec fn syntax_passes(pattern: Seq<char>, flags: Flags) -> bool;

/// What the parser says of a `pattern` that it does not pass under `flags`:
/// the kind of its error as `Debug` and as `Display` write it. `None` for an
/// error that is neither of the parse nor of the translation.
pub uninterp spec fn parser_says(pattern: Seq<char>, flags: Flags) -> Option<
    (Seq<char>, Seq<char>),
>;

/// Where in a `pattern` that the parser does not pass under `flags` its
/// error is.
pub uninterp spec fn parser_span(pattern: Seq<char>, flags: Flags) -> Option<RawSpan>;

/// The second place that the error of the parser speaks of, for the errors
/// that speak of two.
pub uninterp spec fn parser_second_span(pattern: Seq<char>, flags: Flags) -> Option<RawSpan>;

/// Builds a `regex_syntax::Parser` that lets a pattern match bytes that are
/// no UTF-8 and has each option as `flags` has it, and parses `pattern` with
/// it: `Ok` where the pattern is well formed, else the `kind` of the error
/// of the parse or of the translation, as `Debug` and as `Display` write it.
#[verifier::external_body]
pub(crate) fn check_syntax(pattern: &str, flags: &Flags) -> (out: Result<
    (),
    Option<(String, String)>,
>)
    ensures
        out is Ok <==> syntax_passes(pattern@, *flags),
        out matches Err(said) ==> said_view(said) == parser_says(pattern@, *flags),
{
    let parsed = regex_syntax::ParserBuilder::new().allow_invalid_utf8(true)
        .unicode(flags.unicode)
        .case_insensitive(flags.case_insensitive)
        .multi_line(flags.multi_line)
        .dot_matches_new_line(flags.dot_matches_new_line)
        .swap_greed(flags.swap_greed)
        .ignore_whitespace(flags.ignore_whitespace)
        .build().parse(pattern);
    match parsed {
        Ok(_) => Ok(()),
        Err(SyntaxError::Parse(e)) => Err(Some((format!("{:?}", e.kind()), e.kind().to_string()))),
        Err(SyntaxError::Translate(e)) => Err(Some((format!("{:?}", e.kind()), e.kind().to_string()))),
        Err(_) => Err(None),
    }
}

/// Parses `pattern` as `check_syntax` does and gives the `span` of the error
/// of the parse or of the translation. That crate says of both that every
/// span in the error is a valid range into the pattern, and of a position,
/// that its line and its column start at 1.
#[verifier::external_body]
pub(crate) fn syntax_span(pattern: &str, flags: &Flags) -> (span: Option<RawSpan>)
    ensures
        span == parser_span(pattern@, *flags),
        span matches Some(raw) ==> raw_span_placed(encode_utf8(pattern@), raw),
{
    let parsed = regex_syntax::ParserBuilder::new().allow_invalid_utf8(true)
        .unicode(flags.unicode)
        .case_insensitive(flags.case_insensitive)
        .multi_line(flags.multi_line)
        .dot_matches_new_line(flags.dot_matches_new_line)
        .swap_greed(flags.swap_greed)
        .ignore_whitespace(flags.ignore_whitespace)
        .build().parse(pattern);
    let s = match &parsed {
        Err(SyntaxError::Parse(e)) => e.span(),
        Err(SyntaxError::Translate(e)) => e.span(),
        _ => return None,
    };
    Some((s.start.offset, s.start.line, s.start.column, s.end.offset, s.end.line, s.end.column))
}

/// Parses `pattern` as `check_syntax` does and gives the `auxiliary_span` of
/// the error of the parse, where it has one. It is a span as `syntax_span`
/// gives them.
#[verifier::external_body]
pub(crate) fn syntax_second_span(pattern: &str, flags: &Flags) -> (span: Option<RawSpan>)
    ensures
        span == parser_second_span(pattern@, *flags),
        span matches Some(raw) ==> raw_span_placed(encode_utf8(pattern@), raw),
{
    let parsed = regex_syntax::ParserBuilder::new().allow_invalid_utf8(true)
        .unicode(flags.unicode)
        .case_insensitive(flags.case_insensitive)
        .multi_line(flags.multi_line)
        .dot_matches_new_line(flags.dot_matches_new_line)
        .swap_greed(flags.swap_greed)
        .ignore_whitespace(flags.ignore_whitespace)
        .build().parse(pattern);
    let s = match &parsed {
        Err(SyntaxError::Parse(e)) => e.auxiliary_span()?,
        _ => return None,
    };
    Some((s.start.offset, s.start.line, s.start.column, s.end.offset, s.end.line, s.end.column))
}

} // verus!
