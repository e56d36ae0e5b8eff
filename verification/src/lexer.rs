//! The decoder of standard string literals, which is `rustc_lexer`'s.

use rustc_lexer::unescape::unescape_str;
use vstd::prelude::*;
use vstd::string::StringSliceAdditionalSpecFns;
use vstd::utf8::*;

use crate::error::EscapeKind;

verus! {

/// One thing that the decoder read: the bytes it read it from, first and
/// one past the last, and the character that they stand for, or the number
/// of what is wrong with them.
pub type Item = (usize, usize, Result<char, u8>);

/// What `rustc_lexer::unescape::unescape_str` hands to its callback for the
/// literal `literal`, item by item in its order. An error is given by the
/// place of its kind among the variants of `EscapeError` as that crate
/// declares them, counted from 0.
pub uninterp spec fn lexed_str(literal: Seq<char>) -> Seq<Item>;

/// Whether `item` can have been read from `bytes`: from a stretch that is not
/// empty and runs from one code-point boundary to another, with an error, if
/// it is one, of a kind that a standard string can have.
pub open spec fn item_fits(bytes: Seq<u8>, item: Item) -> bool {
    &&& item.0 < item.1
    &&& is_char_boundary(bytes, item.0 as int)
    &&& is_char_boundary(bytes, item.1 as int)
    &&& item.2 matches Err(code) ==> 2 <= code <= 17
}

/// Calls `rustc_lexer::unescape::unescape_str` on `s` and collects what it
/// hands to the callback. That function decodes `s` front to back, and gives
/// each character or escape with the byte range that it took from `s`;
/// in a string (not a byte string, not a character literal) its errors are
/// those from `LoneSlash` to `OutOfRangeUnicodeEscape`, the third to the
/// eighteenth variant of `EscapeError`.
#[verifier::external_body]
pub(crate) fn lex_str(s: &str) -> (items: Vec<Item>)
    ensures
        items@ == lexed_str(s@),
        forall|i: int| 0 <= i < items@.len() ==> item_fits(s.spec_bytes(), #[trigger] items@[i]),
{
    let mut items = Vec::new();
    unescape_str(s, &mut |range, item| {
        items.push((range.start, range.end, item.map_err(|e| e as u8)))
    });
    items
}

/// The kind of escape error that the decoder numbers `code`.
pub open spec fn kind_of_code(code: u8) -> EscapeKind {
    if code == 2 {
        EscapeKind::LoneSlash
    } else if code == 3 {
        EscapeKind::InvalidEscape
    } else if code == 4 {
        EscapeKind::BareCarriageReturn
    } else if code == 5 {
        EscapeKind::BareCarriageReturnInRawString
    } else if code == 6 {
        EscapeKind::EscapeOnlyChar
    } else if code == 7 {
        EscapeKind::TooShortHexEscape
    } else if code == 8 {
        EscapeKind::InvalidCharInHexEscape
    } else if code == 9 {
        EscapeKind::OutOfRangeHexEscape
    } else if code == 10 {
        EscapeKind::NoBraceInUnicodeEscape
    } else if code == 11 {
        EscapeKind::InvalidCharInUnicodeEscape
    } else if code == 12 {
        EscapeKind::EmptyUnicodeEscape
    } else if code == 13 {
        EscapeKind::UnclosedUnicodeEscape
    } else if code == 14 {
        EscapeKind::LeadingUnderscoreUnicodeEscape
    } else if code == 15 {
        EscapeKind::OverlongUnicodeEscape
    } else if code == 16 {
        EscapeKind::LoneSurrogateUnicodeEscape
    } else {
        EscapeKind::OutOfRangeUnicodeEscape
    }
}

/// The kind of escape error that the decoder numbers `code`, for the numbers
/// that a standard string can give.
pub fn escape_kind(code: u8) -> (kind: EscapeKind)
    requires
        2 <= code <= 17,
    ensures
        kind == kind_of_code(code),
{
    match code {
        2 => EscapeKind::LoneSlash,
        3 => EscapeKind::InvalidEscape,
        4 => EscapeKind::BareCarriageReturn,
        5 => EscapeKind::BareCarriageReturnInRawString,
        6 => EscapeKind::EscapeOnlyChar,
        7 => EscapeKind::TooShortHexEscape,
        8 => EscapeKind::InvalidCharInHexEscape,
        9 => EscapeKind::OutOfRangeHexEscape,
        10 => EscapeKind::NoBraceInUnicodeEscape,
        11 => EscapeKind::InvalidCharInUnicodeEscape,
        12 => EscapeKind::EmptyUnicodeEscape,
        13 => EscapeKind::UnclosedUnicodeEscape,
        14 => EscapeKind::LeadingUnderscoreUnicodeEscape,
        15 => EscapeKind::OverlongUnicodeEscape,
        16 => EscapeKind::LoneSurrogateUnicodeEscape,
        _ => EscapeKind::OutOfRangeUnicodeEscape,
    }
}

} // verus!
