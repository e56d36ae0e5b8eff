//! Positions, spans and the diagnostics that carry them.

use std::ops::Range;

use vstd::prelude::*;
use vstd::std_specs::convert::FromSpecImpl;
use vstd::string::{StringExecFns, StringSliceAdditionalSpecFns};
use vstd::utf8::*;

use crate::encoding::{
    lemma_ascii_alone, lemma_boundary_iff, lemma_boundary_in_tail, lemma_prefix_units,
    lemma_units_decode, lemma_units_monotone, utf16_len, utf16_prefix,
};
use crate::engine::BuildErrorKind;
use crate::strops::{len_is_exact, utf16_index_bytes, utf16_index_chars, StrType};
use crate::flags::Flags;
use crate::syntax::{
    parser_second_span, parser_span, raw_span_placed, said_view, syntax_second_span, syntax_span,
    RawSpan,
};

verus! {

/// Line feeds among the first `upto` bytes.
pub open spec fn newlines_before(bytes: Seq<u8>, upto: int) -> nat
    decreases upto,
{
    if upto <= 0 {
        0
    } else {
        newlines_before(bytes, upto - 1) + if bytes[upto - 1] == 0x0a {
            1nat
        } else {
            0nat
        }
    }
}

/// Where the line that holds byte `upto` starts: after the last line feed
/// before `upto`, or at 0.
pub open spec fn line_start(bytes: Seq<u8>, upto: int) -> int
    decreases upto,
{
    if upto <= 0 {
        0
    } else if bytes[upto - 1] == 0x0a {
        upto
    } else {
        line_start(bytes, upto - 1)
    }
}

/// A place in a text: an offset from its start, the line (from 1) and the
/// column in that line. Offset and column count bytes or UTF-16 code units.
#[derive(Clone, Copy, Debug, PartialEq, Eq, Structural)]
pub struct Position {
    pub offset: usize,
    pub line: usize,
    pub column: usize,
}

/// The place of byte `offset`, counted in bytes.
pub open spec fn byte_position(bytes: Seq<u8>, offset: int) -> Position {
    Position {
        offset: offset as usize,
        line: (1 + newlines_before(bytes, offset)) as usize,
        column: (offset - line_start(bytes, offset)) as usize,
    }
}

/// The place of byte `offset`, counted in UTF-16 code units.
pub open spec fn utf16_position(bytes: Seq<u8>, offset: int) -> Position {
    Position {
        offset: utf16_prefix(bytes, offset) as usize,
        line: (1 + newlines_before(bytes, offset)) as usize,
        column: utf16_len(decode_utf8(bytes.subrange(line_start(bytes, offset), offset))) as usize,
    }
}

/// The line feeds and the line start never run ahead of the offset.
pub proof fn lemma_lines_bounded(bytes: Seq<u8>, i: int, j: int)
    requires
        0 <= i <= j,
    ensures
        newlines_before(bytes, i) <= newlines_before(bytes, j),
        newlines_before(bytes, i) <= i,
        0 <= line_start(bytes, i) <= i,
        line_start(bytes, i) > 0 ==> bytes[line_start(bytes, i) - 1] == 0x0a,
    decreases j,
{
    if i < j {
        lemma_lines_bounded(bytes, i, j - 1);
    } else if i > 0 {
        lemma_lines_bounded(bytes, i - 1, i - 1);
    }
}

impl Default for Position {
    fn default() -> (p: Self)
        ensures
            p == (Position { offset: 0, line: 0, column: 0 }),
    {
        Position { offset: 0, line: 0, column: 0 }
    }
}

impl Position {
    pub fn new(offset: usize, line: usize, column: usize) -> (p: Self)
        ensures
            p == (Position { offset, line, column }),
    {
        Self { offset, line, column }
    }

    /// Return UTF-8 and UTF-16 positions from a single UTF-8 byte index,
    /// which must lie on a code-point boundary.
    pub fn from_offset(s: &str, offset: usize) -> (pair: (Self, Self))
        requires
            is_char_boundary(s.spec_bytes(), offset as int),
            newlines_before(s.spec_bytes(), offset as int) < usize::MAX,
        ensures
            pair.0 == byte_position(s.spec_bytes(), offset as int),
            pair.1 == utf16_position(s.spec_bytes(), offset as int),
    {
        let bytes = s.as_bytes();
        proof {
            encode_utf8_valid_utf8(s@);
            lemma_boundary_iff(bytes@, offset as int);
            lemma_boundary_iff(bytes@, 0);
        }
        let mut line: usize = 1;
        let mut newline_idx: usize = 0;
        let mut i: usize = 0;
        while i < offset
            invariant
                valid_utf8(bytes@),
                i <= offset <= bytes@.len(),
                newlines_before(bytes@, offset as int) < usize::MAX,
                line == 1 + newlines_before(bytes@, i as int),
                newline_idx == line_start(bytes@, i as int),
                newline_idx <= i,
                is_char_boundary(bytes@, newline_idx as int),
            decreases offset - i,
        {
            proof {
                lemma_lines_bounded(bytes@, i + 1, offset as int);
            }
            if bytes[i] == 0x0a {
                proof {
                    lemma_ascii_alone(bytes@, i as int);
                }
                line = line + 1;
                newline_idx = i + 1;
            }
            i = i + 1;
        }
        proof {
            lemma_boundary_in_tail(bytes@, newline_idx as int, offset as int);
        }
        let col_u8 = offset - newline_idx;
        let tail = s.split_at(newline_idx).1;
        let col_u16 = utf16_index_bytes(tail, offset - newline_idx);
        let offset_u16 = utf16_index_bytes(s, offset);
        (Self::new(offset, line, col_u8), Self::new(offset_u16, line, col_u16))
    }

    /// We commonly need to bump this to make it a proper range
    pub fn increment_line(&mut self)
        requires
            old(self).line < usize::MAX,
        ensures
            *final(self) == (Position { line: (old(self).line + 1) as usize, ..*old(self) }),
    {
        self.line = self.line + 1;
    }
}

/// The span with the six numbers `raw`: offset, line and column of its
/// start, then of its end.
pub open spec fn span_of_raw(raw: RawSpan) -> Span {
    Span {
        start: Position { offset: raw.0, line: raw.1, column: raw.2 },
        end: Position { offset: raw.3, line: raw.4, column: raw.5 },
    }
}

/// `p` moved one line down.
pub open spec fn next_line(p: Position) -> Position {
    Position { line: (p.line + 1) as usize, ..p }
}

/// A stretch of text between two places.
#[derive(Clone, Copy, Debug, PartialEq, Eq, Structural)]
pub struct Span {
    pub start: Position,
    pub end: Position,
}

/// The spans of the bytes from `start` up to `end`, counted in bytes and in
/// UTF-16 code units. The end of each stands one line below the place of
/// `end`.
pub open spec fn span_pair(bytes: Seq<u8>, start: int, end: int) -> (Span, Span) {
    (
        Span { start: byte_position(bytes, start), end: next_line(byte_position(bytes, end)) },
        Span { start: utf16_position(bytes, start), end: next_line(utf16_position(bytes, end)) },
    )
}

impl Default for Span {
    fn default() -> (sp: Self)
        ensures
            sp == (Span {
                start: Position { offset: 0, line: 0, column: 0 },
                end: Position { offset: 0, line: 0, column: 0 },
            }),
    {
        Span { start: Position::default(), end: Position::default() }
    }
}

impl Span {
    pub fn new(start: Position, end: Position) -> (sp: Self)
        ensures
            sp == (Span { start, end }),
    {
        Self { start, end }
    }

    /// The six numbers of the span: offset, line and column of its start,
    /// then of its end.
    pub open spec fn raw(self) -> RawSpan {
        (
            self.start.offset,
            self.start.line,
            self.start.column,
            self.end.offset,
            self.end.line,
            self.end.column,
        )
    }

    /// The span with the six numbers `raw`: offset, line and column of its
    /// start, then of its end.
    pub fn from_raw(raw: RawSpan) -> (sp: Self)
        ensures
            sp == span_of_raw(raw),
            sp.raw() == raw,
    {
        Self { start: Position::new(raw.0, raw.1, raw.2), end: Position::new(raw.3, raw.4, raw.5) }
    }

    /// Returns a UTF-8 and a UTF-16 span of a range of bytes that is not
    /// empty and has both ends on code-point boundaries.
    pub fn from_offsets(s: &str, range: Range<usize>) -> (pair: (Self, Self))
        requires
            range.start < range.end,
            is_char_boundary(s.spec_bytes(), range.start as int),
            is_char_boundary(s.spec_bytes(), range.end as int),
            newlines_before(s.spec_bytes(), range.end as int) + 1 < usize::MAX,
        ensures
            pair == span_pair(s.spec_bytes(), range.start as int, range.end as int),
    {
        proof {
            encode_utf8_valid_utf8(s@);
            lemma_boundary_iff(s.spec_bytes(), range.start as int);
            lemma_lines_bounded(s.spec_bytes(), range.start as int, range.end as int);
        }
        let (start_u8, start_u16) = Position::from_offset(s, range.start);
        let (mut end_u8, mut end_u16) = Position::from_offset(s, range.end);
        end_u8.increment_line();
        end_u16.increment_line();
        (Self { start: start_u8, end: end_u8 }, Self { start: start_u16, end: end_u16 })
    }
}

/// A span made from a range of a text does not run backwards: in bytes and
/// in UTF-16 its start is not after its end, nor on a later line.
pub proof fn law_span_runs_forward(bytes: Seq<u8>, start: int, end: int)
    requires
        valid_utf8(bytes),
        bytes.len() <= usize::MAX,
        is_char_boundary(bytes, start),
        is_char_boundary(bytes, end),
        start <= end,
        newlines_before(bytes, end) + 1 < usize::MAX,
    ensures
        span_pair(bytes, start, end).0.start.offset <= span_pair(bytes, start, end).0.end.offset,
        span_pair(bytes, start, end).1.start.offset <= span_pair(bytes, start, end).1.end.offset,
        span_pair(bytes, start, end).0.start.line < span_pair(bytes, start, end).0.end.line,
        span_pair(bytes, start, end).1.start.line < span_pair(bytes, start, end).1.end.line,
{
    lemma_prefix_units(bytes, start);
    lemma_prefix_units(bytes, end);
    lemma_units_monotone(bytes, start, end);
    lemma_lines_bounded(bytes, start, end);
}

/// Where the line after the one that holds byte `from` begins: after the
/// first line feed at or after `from`, or at the end of the text where none
/// follows.
pub open spec fn line_after(bytes: Seq<u8>, from: int) -> int
    decreases bytes.len() - from,
{
    if from < 0 || from >= bytes.len() {
        bytes.len() as int
    } else if bytes[from] == 0x0a {
        from + 1
    } else {
        line_after(bytes, from + 1)
    }
}

/// Where line `n`, counted from 0, begins.
pub open spec fn line_begin(bytes: Seq<u8>, n: nat) -> int
    decreases n,
{
    if n == 0 {
        0
    } else {
        line_after(bytes, line_begin(bytes, (n - 1) as nat))
    }
}

/// Whether the text has a line `n`, counted from 0. A line feed at the very
/// end starts no further line.
pub open spec fn has_line(bytes: Seq<u8>, n: nat) -> bool {
    line_begin(bytes, n) < bytes.len()
}

/// Where the line that begins at `from` stops: before the line feed that
/// ends it and before a carriage return right before that line feed, or at
/// the end of the text where no line feed follows.
pub open spec fn line_stop(bytes: Seq<u8>, from: int) -> int {
    let next = line_after(bytes, from);
    if from < next && bytes[next - 1] == 0x0a {
        if from < next - 1 && bytes[next - 2] == 0x0d {
            next - 2
        } else {
            next - 1
        }
    } else {
        next
    }
}

/// The bytes of line `n`, counted from 0, without its line ending.
pub open spec fn line_text(bytes: Seq<u8>, n: nat) -> Seq<u8> {
    bytes.subrange(line_begin(bytes, n), line_stop(bytes, line_begin(bytes, n)))
}

/// Scanning over bytes that are no line feed does not change where the next
/// line begins.
proof fn lemma_line_after_scan(bytes: Seq<u8>, from: int, j: int)
    requires
        0 <= from <= j <= bytes.len(),
        forall|x: int| from <= x < j ==> bytes[x] != 0x0a,
    ensures
        line_after(bytes, from) == line_after(bytes, j),
        j < bytes.len() && bytes[j] == 0x0a ==> line_after(bytes, from) == j + 1,
        j == bytes.len() ==> line_after(bytes, from) == j,
    decreases j - from,
{
    if from < j {
        lemma_line_after_scan(bytes, from + 1, j);
    }
}

/// Lines begin on code-point boundaries of the text, in order.
proof fn lemma_line_begin(bytes: Seq<u8>, n: nat)
    requires
        valid_utf8(bytes),
    ensures
        0 <= line_begin(bytes, n) <= bytes.len(),
        is_char_boundary(bytes, line_begin(bytes, n)),
    decreases n,
{
    lemma_boundary_iff(bytes, 0);
    lemma_boundary_iff(bytes, bytes.len() as int);
    if n > 0 {
        lemma_line_begin(bytes, (n - 1) as nat);
        lemma_line_after(bytes, line_begin(bytes, (n - 1) as nat));
    }
}

proof fn lemma_line_after(bytes: Seq<u8>, from: int)
    requires
        valid_utf8(bytes),
        0 <= from <= bytes.len(),
    ensures
        from <= line_after(bytes, from) <= bytes.len(),
        from < bytes.len() ==> from < line_after(bytes, from),
        is_char_boundary(bytes, line_after(bytes, from)),
    decreases bytes.len() - from,
{
    lemma_boundary_iff(bytes, bytes.len() as int);
    if from < bytes.len() {
        if bytes[from] == 0x0a {
            lemma_ascii_alone(bytes, from);
        } else {
            lemma_line_after(bytes, from + 1);
        }
    }
}

/// Once the text has run out, every further line begins at its end.
proof fn lemma_no_more_lines(bytes: Seq<u8>, m: nat, n: nat)
    requires
        m <= n,
        line_begin(bytes, m) >= bytes.len(),
    ensures
        line_begin(bytes, n) >= bytes.len(),
    decreases n,
{
    if m < n {
        lemma_no_more_lines(bytes, m, (n - 1) as nat);
    }
}

/// Where the first line feed at or after `from` stands, or the length of the
/// text if there is none.
fn find_line_feed(bytes: &[u8], from: usize) -> (j: usize)
    requires
        from <= bytes@.len(),
    ensures
        from <= j <= bytes@.len(),
        forall|x: int| from <= x < j ==> bytes@[x] != 0x0a,
        j < bytes@.len() ==> bytes@[j as int] == 0x0a,
{
    let mut j = from;
    while j < bytes.len() && bytes[j] != 0x0a
        invariant
            from <= j <= bytes@.len(),
            forall|x: int| from <= x < j ==> bytes@[x] != 0x0a,
        decreases bytes@.len() - j,
    {
        j = j + 1;
    }
    j
}

/// Line `n` of `s`, counted from 0, without its line ending; `None` where
/// `s` has fewer lines.
pub fn nth_line(s: &str, n: usize) -> (line: Option<&str>)
    ensures
        line is Some <==> has_line(s.spec_bytes(), n as nat),
        line matches Some(l) ==> l.spec_bytes() == line_text(s.spec_bytes(), n as nat),
{
    let bytes = s.as_bytes();
    proof {
        encode_utf8_valid_utf8(s@);
    }
    let mut begin: usize = 0;
    let mut k: usize = 0;
    while k < n && begin < bytes.len()
        invariant
            valid_utf8(bytes@),
            k <= n,
            begin <= bytes@.len(),
            begin == line_begin(bytes@, k as nat),
        decreases n - k,
    {
        let j = find_line_feed(bytes, begin);
        proof {
            lemma_line_after_scan(bytes@, begin as int, j as int);
        }
        begin = if j < bytes.len() {
            j + 1
        } else {
            j
        };
        k = k + 1;
    }
    proof {
        lemma_line_begin(bytes@, k as nat);
        if begin >= bytes.len() {
            lemma_no_more_lines(bytes@, k as nat, n as nat);
        }
    }
    if begin >= bytes.len() {
        return None;
    }
    let j = find_line_feed(bytes, begin);
    let stop = if j < bytes.len() && begin < j && bytes[j - 1] == 0x0d {
        j - 1
    } else {
        j
    };
    proof {
        lemma_line_after_scan(bytes@, begin as int, j as int);
        assert(stop == line_stop(bytes@, begin as int));
        if stop < bytes.len() {
            lemma_ascii_alone(bytes@, stop as int);
        } else {
            lemma_boundary_iff(bytes@, stop as int);
        }
        lemma_boundary_in_tail(bytes@, begin as int, stop as int);
        valid_utf8_split(bytes@, stop as int);
    }
    let head = s.split_at(stop).0;
    proof {
        let hb = head.spec_bytes();
        lemma_boundary_iff(hb, begin as int);
        if begin < hb.len() {
            assert(hb[begin as int] == bytes@[begin as int]);
            lemma_boundary_iff(bytes@, begin as int);
        }
        assert(hb.subrange(begin as int, hb.len() as int) =~= bytes@.subrange(
            begin as int,
            stop as int,
        ));
    }
    Some(head.split_at(begin).1)
}

/// Whether a position that a syntax parser gave lies in the text: its
/// offset on a code-point boundary, its line (from 1) among the lines of the
/// text, its column at least 1.
pub open spec fn position_fits(bytes: Seq<u8>, p: Position) -> bool {
    &&& is_char_boundary(bytes, p.offset as int)
    &&& p.line >= 1
    &&& has_line(bytes, (p.line - 1) as nat)
    &&& p.column >= 1
}

/// The UTF-16 counterpart of a parser's position `p`, whose column counts
/// code points from 1: the offset becomes the UTF-16 length of the text
/// before it, the column the UTF-16 length of the code points of its line
/// that stand before it, plus 1. The line stays.
pub open spec fn utf16_of_position(bytes: Seq<u8>, p: Position) -> Position {
    let line = decode_utf8(line_text(bytes, (p.line - 1) as nat));
    let before = if p.column - 1 <= line.len() {
        p.column - 1
    } else {
        line.len() as int
    };
    Position {
        offset: utf16_prefix(bytes, p.offset as int) as usize,
        line: p.line,
        column: (utf16_len(line.take(before)) + 1) as usize,
    }
}

/// Whether `p` lies in `s`, as `convert_re_spans` needs it.
pub fn position_fits_text(s: &str, p: &Position) -> (ok: bool)
    ensures
        ok == position_fits(s.spec_bytes(), *p),
{
    if !s.is_char_boundary(p.offset) || p.line < 1 || p.column < 1 {
        return false;
    }
    nth_line(s, p.line - 1).is_some()
}

/// The UTF-16 position for a parser's position that lies in `s`.
fn convert_re_position(s: &str, p: &Position) -> (q: Position)
    requires
        s.len() < usize::MAX,
        position_fits(s.spec_bytes(), *p),
    ensures
        q == utf16_of_position(s.spec_bytes(), *p),
{
    len_is_exact(s);
    let offset = utf16_index_bytes(s, p.offset);
    // Need to recalculate char offset within the line
    let line = nth_line(s, p.line - 1).unwrap();
    proof {
        encode_utf8_valid_utf8(s@);
        lemma_line_text_in_text(s.spec_bytes(), (p.line - 1) as nat);
        encode_utf8_decode_utf8(line@);
        encode_utf8_valid_utf8(line@);
        lemma_units_decode(line.spec_bytes());
        lemma_utf16_len_take(line@, p.column - 1);
    }
    let column = utf16_index_chars(line, p.column - 1) + 1;
    Position { offset, line: p.line, column }
}

/// A line is a stretch of the text.
proof fn lemma_line_text_in_text(bytes: Seq<u8>, n: nat)
    requires
        valid_utf8(bytes),
    ensures
        line_text(bytes, n).len() <= bytes.len(),
{
    lemma_line_begin(bytes, n);
    lemma_line_after(bytes, line_begin(bytes, n));
}

/// A prefix is no longer in UTF-16 than the whole.
pub proof fn lemma_utf16_len_take(chars: Seq<char>, n: int)
    ensures
        utf16_len(
            chars.take(
                if 0 <= n <= chars.len() {
                    n
                } else {
                    chars.len() as int
                },
            ),
        ) <= utf16_len(chars),
    decreases chars.len(),
{
    let m = if 0 <= n <= chars.len() {
        n
    } else {
        chars.len() as int
    };
    if chars.len() == 0 || m == 0 {
        assert(chars.take(m) =~= Seq::<char>::empty());
    } else {
        lemma_utf16_len_take(chars.drop_first(), n - 1);
        assert(chars.take(m).drop_first() =~= chars.drop_first().take(m - 1));
    }
}

/// Creates a UTF-8 span and a UTF-16 span from the span that a syntax parser
/// gave for the pattern `s`. Both ends must lie in `s`.
pub fn convert_re_spans(s: &str, span: &Span) -> (pair: (Span, Span))
    requires
        s.len() < usize::MAX,
        position_fits(s.spec_bytes(), span.start),
        position_fits(s.spec_bytes(), span.end),
    ensures
        pair.0 == *span,
        pair.1 == (Span {
            start: utf16_of_position(s.spec_bytes(), span.start),
            end: utf16_of_position(s.spec_bytes(), span.end),
        }),
{
    let start = convert_re_position(s, &span.start);
    let end = convert_re_position(s, &span.end);
    (*span, Span { start, end })
}

/// Error while unescaping a string
#[derive(Debug)]
pub struct Unescape {
    /// What is wrong, for a reader
    pub message: String,
    /// Location of the error
    pub span: Span,
    /// Location of the error with UTF-16 offsets
    pub span_utf16: Span,
    /// Where this error came from
    pub source: Option<&'static str>,
}

/// What an `Unescape` says.
pub struct UnescapeView {
    pub message: Seq<char>,
    pub span: Span,
    pub span_utf16: Span,
    pub source: Option<Seq<char>>,
}

impl View for Unescape {
    type V = UnescapeView;

    open spec fn view(&self) -> UnescapeView {
        UnescapeView {
            message: self.message@,
            span: self.span,
            span_utf16: self.span_utf16,
            source: match self.source {
                Some(name) => Some(name@),
                None => None,
            },
        }
    }
}

/// The error at the bytes from `start` up to `end`, with `message` and no
/// source yet.
pub open spec fn unescape_error(
    bytes: Seq<u8>,
    start: int,
    end: int,
    message: Seq<char>,
) -> UnescapeView {
    UnescapeView {
        message,
        span: span_pair(bytes, start, end).0,
        span_utf16: span_pair(bytes, start, end).1,
        source: None,
    }
}

/// What is said of a closing text `pat` found in a string of type `type_`.
pub open spec fn pattern_message(pat: Seq<char>, type_: StrType) -> Seq<char> {
    "pattern '"@ + pat + "' may not be contained in "@ + type_.noun() + " strings"@
}

impl Default for Unescape {
    fn default() -> (err: Self)
        ensures
            err@ == (UnescapeView {
                message: Seq::<char>::empty(),
                span: Span {
                    start: Position { offset: 0, line: 0, column: 0 },
                    end: Position { offset: 0, line: 0, column: 0 },
                },
                span_utf16: Span {
                    start: Position { offset: 0, line: 0, column: 0 },
                    end: Position { offset: 0, line: 0, column: 0 },
                },
                source: None,
            }),
    {
        Unescape {
            message: String::new(),
            span: Span::default(),
            span_utf16: Span::default(),
            source: None,
        }
    }
}

impl Unescape {
    /// Create a pattern error: `pat`, which is not empty, stands at byte
    /// `idx` of `s`, whose type `type_` does not allow it.
    pub fn from_pat(s: &str, pat: &str, idx: usize, type_: StrType) -> (err: Self)
        requires
            pat.spec_bytes().len() > 0,
            is_char_boundary(s.spec_bytes(), idx as int),
            is_char_boundary(s.spec_bytes(), idx + pat.spec_bytes().len()),
            newlines_before(s.spec_bytes(), idx + pat.spec_bytes().len()) + 1 < usize::MAX,
        ensures
            err@ == unescape_error(
                s.spec_bytes(),
                idx as int,
                idx + pat.spec_bytes().len(),
                pattern_message(pat@, type_),
            ),
    {
        let text_len = s.as_bytes().len();
        let pat_len = pat.as_bytes().len();
        proof {
            encode_utf8_valid_utf8(s@);
            lemma_boundary_iff(s.spec_bytes(), idx + pat.spec_bytes().len());
            assert(idx + pat_len <= text_len);
        }
        let (span, span_utf16) = Span::from_offsets(s, idx..(idx + pat_len));
        let mut message = String::from_str("pattern '");
        message.append(pat);
        message.append("' may not be contained in ");
        message.append(type_.to_string().as_str());
        message.append(" strings");
        Self { message, span, span_utf16, source: None }
    }
}

/// What can be wrong with an escape in a standard string.
#[derive(Clone, Copy, Debug, PartialEq, Eq, Structural)]
pub enum EscapeKind {
    /// A backslash at the very end
    LoneSlash,
    /// A backslash before a character that it cannot escape
    InvalidEscape,
    /// A carriage return that no line feed follows
    BareCarriageReturn,
    /// The same, in a raw string
    BareCarriageReturnInRawString,
    /// A character that must be escaped stands unescaped
    EscapeOnlyChar,
    /// `\x` with fewer than two digits
    TooShortHexEscape,
    /// `\x` with something that is no hexadecimal digit
    InvalidCharInHexEscape,
    /// `\x` above 7f
    OutOfRangeHexEscape,
    /// `\u` without `{`
    NoBraceInUnicodeEscape,
    /// `\u{` with something that is no hexadecimal digit
    InvalidCharInUnicodeEscape,
    /// `\u{}`
    EmptyUnicodeEscape,
    /// `\u{` without `}`
    UnclosedUnicodeEscape,
    /// `\u{_`
    LeadingUnderscoreUnicodeEscape,
    /// `\u{` with more than six digits
    OverlongUnicodeEscape,
    /// `\u{` with the number of a surrogate
    LoneSurrogateUnicodeEscape,
    /// `\u{` with a number beyond the last code point
    OutOfRangeUnicodeEscape,
}

impl EscapeKind {
    /// What a reader is told of an escape error of this kind.
    pub open spec fn message(self) -> Seq<char> {
        match self {
            EscapeKind::LoneSlash => "escaped '\\' character without continuation"@,
            EscapeKind::InvalidEscape => "invalid escape character"@,
            EscapeKind::BareCarriageReturn => "raw '\r' encountered"@,
            EscapeKind::BareCarriageReturnInRawString => "raw '\r' encountered"@,
            EscapeKind::EscapeOnlyChar => "unescaped character that was expected to be escaped"@,
            EscapeKind::TooShortHexEscape => "numeric character escape is too short"@,
            EscapeKind::InvalidCharInHexEscape => "invalid character in numeric escape"@,
            EscapeKind::OutOfRangeHexEscape => "character code in numeric escape is non-ascii"@,
            EscapeKind::NoBraceInUnicodeEscape => {
                "no brace in unicode escape: '\\u' not followed by '{'"@
            },
            EscapeKind::InvalidCharInUnicodeEscape => "non-hexadecimal value in '\\u{..}'"@,
            EscapeKind::EmptyUnicodeEscape => "empty unicode escape"@,
            EscapeKind::UnclosedUnicodeEscape => "no closing brace in '\\u{..}'"@,
            EscapeKind::LeadingUnderscoreUnicodeEscape => "leading underscore unicode escape"@,
            EscapeKind::OverlongUnicodeEscape => "more than 6 characters in '\\u{..}'"@,
            EscapeKind::LoneSurrogateUnicodeEscape => {
                "lone surrogate in unicode escape: invalid in-bound unicode character code"@
            },
            EscapeKind::OutOfRangeUnicodeEscape => "out of bounds unicode character code"@,
        }
    }
}

/// The message for an escape error.
pub fn escape_error_message(err: &EscapeKind) -> (message: String)
    ensures
        message@ == err.message(),
{
    let text = match err {
        EscapeKind::LoneSlash => "escaped '\\' character without continuation",
        EscapeKind::InvalidEscape => "invalid escape character",
        EscapeKind::BareCarriageReturn | EscapeKind::BareCarriageReturnInRawString => {
            "raw '\r' encountered"
        },
        EscapeKind::EscapeOnlyChar => "unescaped character that was expected to be escaped",
        EscapeKind::TooShortHexEscape => "numeric character escape is too short",
        EscapeKind::InvalidCharInHexEscape => "invalid character in numeric escape",
        EscapeKind::OutOfRangeHexEscape => "character code in numeric escape is non-ascii",
        EscapeKind::NoBraceInUnicodeEscape => {
            "no brace in unicode escape: '\\u' not followed by '{'"
        },
        EscapeKind::InvalidCharInUnicodeEscape => "non-hexadecimal value in '\\u{..}'",
        EscapeKind::EmptyUnicodeEscape => "empty unicode escape",
        EscapeKind::UnclosedUnicodeEscape => "no closing brace in '\\u{..}'",
        EscapeKind::LeadingUnderscoreUnicodeEscape => "leading underscore unicode escape",
        EscapeKind::OverlongUnicodeEscape => "more than 6 characters in '\\u{..}'",
        EscapeKind::LoneSurrogateUnicodeEscape => {
            "lone surrogate in unicode escape: invalid in-bound unicode character code"
        },
        EscapeKind::OutOfRangeUnicodeEscape => "out of bounds unicode character code",
    };
    String::from_str(text)
}

impl Unescape {
    /// The error for an escape of kind `value.2` at the bytes `value.1` of
    /// the string `value.0`. The range is not empty and has both ends on
    /// code-point boundaries.
    pub fn from(value: (&str, Range<usize>, EscapeKind)) -> (err: Self)
        requires
            value.1.start < value.1.end,
            is_char_boundary(value.0.spec_bytes(), value.1.start as int),
            is_char_boundary(value.0.spec_bytes(), value.1.end as int),
            newlines_before(value.0.spec_bytes(), value.1.end as int) + 1 < usize::MAX,
        ensures
            err@ == unescape_error(
                value.0.spec_bytes(),
                value.1.start as int,
                value.1.end as int,
                value.2.message(),
            ),
    {
        let (s, range, err) = value;
        let (span, span_utf16) = Span::from_offsets(s, range);
        let message = escape_error_message(&err);
        Self { message, span, span_utf16, source: None }
    }
}

/// What a syntax parser says of a pattern that is not well formed, in its
/// own terms.
#[derive(Debug)]
pub struct SyntaxFault {
    /// The kind of error, as written for a developer
    pub kind: String,
    /// The kind of error, as written for a reader
    pub message: String,
    /// The pattern that was parsed
    pub pattern: String,
    /// Where in the pattern the error is; its columns count code points
    pub span: Span,
    /// For an error that speaks of two places, the other one
    pub auxiliary_span: Option<Span>,
}

/// What a `SyntaxFault` says.
pub struct SyntaxFaultView {
    pub kind: Seq<char>,
    pub message: Seq<char>,
    pub pattern: Seq<char>,
    pub span: Span,
    pub auxiliary_span: Option<Span>,
}

impl View for SyntaxFault {
    type V = SyntaxFaultView;

    open spec fn view(&self) -> SyntaxFaultView {
        SyntaxFaultView {
            kind: self.kind@,
            message: self.message@,
            pattern: self.pattern@,
            span: self.span,
            auxiliary_span: self.auxiliary_span,
        }
    }
}

/// What `fault` says, if there is one.
pub open spec fn fault_view(fault: Option<SyntaxFault>) -> Option<SyntaxFaultView> {
    match fault {
        Some(f) => Some(f@),
        None => None,
    }
}

/// The fault of a `pattern` that the parser does not pass under `flags`,
/// of which it says `said`: the kind of its error for a developer and for a
/// reader. The spans are those of the parser's error; without a span there
/// is no fault.
pub open spec fn parser_fault(
    pattern: Seq<char>,
    flags: Flags,
    said: (Seq<char>, Seq<char>),
) -> Option<SyntaxFaultView> {
    match parser_span(pattern, flags) {
        Some(raw) => Some(
            SyntaxFaultView {
                kind: said.0,
                message: said.1,
                pattern,
                span: span_of_raw(raw),
                auxiliary_span: match parser_second_span(pattern, flags) {
                    Some(aux) => Some(span_of_raw(aux)),
                    None => None,
                },
            },
        ),
        None => None,
    }
}

/// Serializable form of a regex syntax error
#[derive(Debug)]
pub struct ReSyntax {
    /// Debug representation of the syntax error type
    pub kind: String,
    /// Display
    pub message: String,
    /// Pattern that caused the error
    pub pattern: String,
    /// Location of the error
    pub span: Span,
    /// Location of the error with UTF-16 offsets
    pub span_utf16: Span,
    /// If applicable, second location of the error (e.g. for duplicates)
    pub auxiliary_span: Option<Span>,
    /// Auxiliary span with UTF-16 offsets
    pub auxiliary_span_utf16: Option<Span>,
}

/// What a `ReSyntax` says.
pub struct ReSyntaxView {
    pub kind: Seq<char>,
    pub message: Seq<char>,
    pub pattern: Seq<char>,
    pub span: Span,
    pub span_utf16: Span,
    pub auxiliary_span: Option<Span>,
    pub auxiliary_span_utf16: Option<Span>,
}

impl View for ReSyntax {
    type V = ReSyntaxView;

    open spec fn view(&self) -> ReSyntaxView {
        ReSyntaxView {
            kind: self.kind@,
            message: self.message@,
            pattern: self.pattern@,
            span: self.span,
            span_utf16: self.span_utf16,
            auxiliary_span: self.auxiliary_span,
            auxiliary_span_utf16: self.auxiliary_span_utf16,
        }
    }
}

/// A span at the very start with nothing in it.
pub open spec fn empty_span() -> Span {
    Span {
        start: Position { offset: 0, line: 0, column: 0 },
        end: Position { offset: 0, line: 0, column: 0 },
    }
}

/// A syntax error that says nothing but its `kind`.
pub open spec fn bare_syntax_error(kind: Seq<char>) -> ReSyntaxView {
    ReSyntaxView {
        kind,
        message: Seq::empty(),
        pattern: Seq::empty(),
        span: empty_span(),
        span_utf16: empty_span(),
        auxiliary_span: None,
        auxiliary_span_utf16: None,
    }
}

/// The UTF-16 counterpart of a parser's span over the pattern `bytes`.
pub open spec fn utf16_of_span(bytes: Seq<u8>, span: Span) -> Span {
    Span {
        start: utf16_of_position(bytes, span.start),
        end: utf16_of_position(bytes, span.end),
    }
}

/// Whether both ends of a parser's span lie in the pattern `bytes`.
pub open spec fn span_fits(bytes: Seq<u8>, span: Span) -> bool {
    position_fits(bytes, span.start) && position_fits(bytes, span.end)
}

impl ReSyntaxView {
    /// Whether the spans of the error belong together: its spans in bytes
    /// lie in its pattern, and those in UTF-16 are their counterparts.
    pub open spec fn in_step(self) -> bool {
        let bytes = encode_utf8(self.pattern);
        &&& span_fits(bytes, self.span)
        &&& self.span_utf16 == utf16_of_span(bytes, self.span)
        &&& match self.auxiliary_span {
            Some(aux) => span_fits(bytes, aux) && self.auxiliary_span_utf16 == Some(
                utf16_of_span(bytes, aux),
            ),
            None => self.auxiliary_span_utf16 is None,
        }
    }

    /// Whether this is a syntax error as the library makes them: one that
    /// says no more than that it is unspecified, or one whose spans belong
    /// together.
    pub open spec fn sound(self) -> bool {
        self == bare_syntax_error("unspecified error"@) || self.in_step()
    }

    /// Whether no span of the error runs backwards: in bytes and in UTF-16,
    /// the start of each is not after its end.
    pub open spec fn runs_forward(self) -> bool {
        &&& self.span.start.offset <= self.span.end.offset
        &&& self.span_utf16.start.offset <= self.span_utf16.end.offset
        &&& self.auxiliary_span matches Some(aux) ==> aux.start.offset <= aux.end.offset
        &&& self.auxiliary_span_utf16 matches Some(aux) ==> aux.start.offset <= aux.end.offset
    }
}

/// The UTF-16 counterpart of a span that does not run backwards does not run
/// backwards.
proof fn lemma_utf16_span_forward(bytes: Seq<u8>, span: Span)
    requires
        valid_utf8(bytes),
        bytes.len() < usize::MAX,
        is_char_boundary(bytes, span.start.offset as int),
        is_char_boundary(bytes, span.end.offset as int),
        span.start.offset <= span.end.offset,
    ensures
        utf16_of_span(bytes, span).start.offset <= utf16_of_span(bytes, span).end.offset,
{
    lemma_prefix_units(bytes, span.start.offset as int);
    lemma_prefix_units(bytes, span.end.offset as int);
    lemma_units_monotone(bytes, span.start.offset as int, span.end.offset as int);
}

/// A fault that is well placed and fits gives an error of which no span runs
/// backwards.
pub proof fn lemma_converted_runs_forward(fault: SyntaxFaultView)
    requires
        fault.fits(),
        fault.well_placed(),
    ensures
        fault.converted().runs_forward(),
{
    let bytes = encode_utf8(fault.pattern);
    encode_utf8_valid_utf8(fault.pattern);
    lemma_utf16_span_forward(bytes, fault.span);
    if let Some(aux) = fault.auxiliary_span {
        lemma_utf16_span_forward(bytes, aux);
    }
}

impl SyntaxFaultView {
    /// Whether the spans of the fault lie in its pattern, which has a
    /// length that a UTF-16 column can count.
    pub open spec fn fits(self) -> bool {
        let bytes = encode_utf8(self.pattern);
        &&& bytes.len() < usize::MAX
        &&& span_fits(bytes, self.span)
        &&& self.auxiliary_span matches Some(aux) ==> span_fits(bytes, aux)
    }

    /// The syntax error for a fault that fits: what the parser said, and
    /// each span in UTF-16 beside it.
    pub open spec fn converted(self) -> ReSyntaxView {
        let bytes = encode_utf8(self.pattern);
        ReSyntaxView {
            kind: self.kind,
            message: self.message,
            pattern: self.pattern,
            span: self.span,
            span_utf16: utf16_of_span(bytes, self.span),
            auxiliary_span: self.auxiliary_span,
            auxiliary_span_utf16: match self.auxiliary_span {
                Some(aux) => Some(utf16_of_span(bytes, aux)),
                None => None,
            },
        }
    }

    /// Whether each span of the fault is a span in its pattern: a range of
    /// it between two code-point boundaries, the start not after the end,
    /// with lines and columns that count from 1.
    pub open spec fn well_placed(self) -> bool {
        let bytes = encode_utf8(self.pattern);
        &&& raw_span_placed(bytes, self.span.raw())
        &&& self.auxiliary_span matches Some(aux) ==> raw_span_placed(bytes, aux.raw())
    }
}

/// The syntax error that a fault gives. Without a fault, the error says no
/// more than that it is unspecified. A fault whose spans lie in its pattern
/// is converted. One whose spans do not gives none.
pub open spec fn syntax_error_of(fault: Option<SyntaxFaultView>) -> Option<ReSyntaxView> {
    match fault {
        None => Some(bare_syntax_error("unspecified error"@)),
        Some(f) => if f.fits() {
            Some(f.converted())
        } else {
            None
        },
    }
}

/// The syntax error for a `pattern` that the parser does not pass under
/// `flags`, of which it says `said`.
pub open spec fn syntax_error_said(
    pattern: Seq<char>,
    flags: Flags,
    said: Option<(Seq<char>, Seq<char>)>,
) -> Option<ReSyntaxView> {
    syntax_error_of(
        match said {
            Some(texts) => parser_fault(pattern, flags, texts),
            None => None,
        },
    )
}

impl SyntaxFault {
    /// Read the fault of `pattern`, which the parser does not pass under
    /// `flags`: what the parser says of it, here `kind` and `message`, and
    /// where it says so. `None` where the parser gives no place.
    pub fn read(pattern: &str, flags: &Flags, kind: String, message: String) -> (fault: Option<
        Self,
    >)
        ensures
            fault_view(fault) == parser_fault(pattern@, *flags, (kind@, message@)),
            fault matches Some(read) ==> read@.well_placed(),
    {
        let span = match syntax_span(pattern, flags) {
            Some(raw) => Span::from_raw(raw),
            None => {
                return None;
            },
        };
        let auxiliary_span = match syntax_second_span(pattern, flags) {
            Some(raw) => Some(Span::from_raw(raw)),
            None => None,
        };
        Some(Self { kind, message, pattern: String::from_str(pattern), span, auxiliary_span })
    }
}

/// Whether both ends of `span` lie in `s`.
pub fn span_fits_text(s: &str, span: &Span) -> (ok: bool)
    ensures
        ok == span_fits(s.spec_bytes(), *span),
{
    position_fits_text(s, &span.start) && position_fits_text(s, &span.end)
}

impl Default for ReSyntax {
    fn default() -> (err: Self)
        ensures
            err@ == bare_syntax_error(Seq::empty()),
    {
        ReSyntax {
            kind: String::new(),
            message: String::new(),
            pattern: String::new(),
            span: Span::default(),
            span_utf16: Span::default(),
            auxiliary_span: None,
            auxiliary_span_utf16: None,
        }
    }
}

impl ReSyntax {
    /// Convert what a syntax parser said into our common error type.
    ///
    /// Without a fault to read, the error says no more than that it is
    /// unspecified. A fault whose spans lie in its pattern is converted. For
    /// one whose spans do not, there is nothing to return.
    pub fn from_fault(fault: Option<SyntaxFault>) -> (out: Option<Self>)
        ensures
            match out {
                Some(err) => syntax_error_of(fault_view(fault)) == Some(err@),
                None => syntax_error_of(fault_view(fault)) is None,
            },
    {
        let fault = match fault {
            Some(fault) => fault,
            None => {
                let mut err = Self::default();
                err.kind = String::from_str("unspecified error");
                return Some(err);
            },
        };
        let pattern = fault.pattern.as_str();
        if pattern.as_bytes().len() == usize::MAX || !span_fits_text(pattern, &fault.span) {
            return None;
        }
        let (span_u8, span_u16) = convert_re_spans(pattern, &fault.span);
        let (aux_span_u8, aux_span_u16) = match &fault.auxiliary_span {
            Some(aux) => {
                if !span_fits_text(pattern, aux) {
                    return None;
                }
                let (aux_u8, aux_u16) = convert_re_spans(pattern, aux);
                (Some(aux_u8), Some(aux_u16))
            },
            None => (None, None),
        };
        Some(
            Self {
                kind: fault.kind,
                message: fault.message,
                pattern: fault.pattern,
                span: span_u8,
                span_utf16: span_u16,
                auxiliary_span: aux_span_u8,
                auxiliary_span_utf16: aux_span_u16,
            },
        )
    }

    /// Convert what the syntax parser says of `pattern`, which it does not
    /// pass under `flags`, into our common error type; `None` where it
    /// speaks of a place that does not lie in the pattern.
    pub fn from(pattern: &str, flags: &Flags, said: Option<(String, String)>) -> (out: Option<Self>)
        ensures
            match out {
                Some(err) => syntax_error_said(pattern@, *flags, said_view(said)) == Some(err@),
                None => syntax_error_said(pattern@, *flags, said_view(said)) is None,
            },
            out matches Some(err) ==> err@.sound() && err@.runs_forward(),
    {
        let fault = match said {
            Some((kind, message)) => SyntaxFault::read(pattern, flags, kind, message),
            None => None,
        };
        proof {
            if fault is Some && fault->0@.fits() {
                lemma_converted_runs_forward(fault->0@);
            }
        }
        Self::from_fault(fault)
    }
}

/// A diagnostic for the host: what is wrong with the request.
#[derive(Debug)]
pub enum Error {
    /// An error from the syntax parser
    RegexSyntax(Box<ReSyntax>),
    /// Regex compiled larger than the limit (unlikely, unless we set a limit)
    RegexCompiledTooBig(String),
    /// Unspecified error (very unlikely)
    RegexUnspecified(String),
    /// Error with an input string; its source says with which
    Unescape(Box<Unescape>),
}

/// What an `Error` says.
pub enum ErrorView {
    RegexSyntax(ReSyntaxView),
    RegexCompiledTooBig(Seq<char>),
    RegexUnspecified(Seq<char>),
    Unescape(UnescapeView),
}

impl ErrorView {
    /// Whether the pattern of a request can have given this diagnostic: it
    /// is none about an input string, and a syntax error is sound.
    pub open spec fn of_pattern(self) -> bool {
        match self {
            ErrorView::RegexSyntax(err) => err.sound(),
            ErrorView::RegexCompiledTooBig(_) => true,
            ErrorView::RegexUnspecified(_) => true,
            ErrorView::Unescape(_) => false,
        }
    }
}

impl View for Error {
    type V = ErrorView;

    open spec fn view(&self) -> ErrorView {
        match self {
            Error::RegexSyntax(err) => ErrorView::RegexSyntax(err@),
            Error::RegexCompiledTooBig(message) => ErrorView::RegexCompiledTooBig(message@),
            Error::RegexUnspecified(message) => ErrorView::RegexUnspecified(message@),
            Error::Unescape(err) => ErrorView::Unescape(err@),
        }
    }
}

impl Error {
    /// The diagnostic for an error of the matcher of kind `kind` that reads
    /// `message`. There is none for a syntax error: the syntax parser has
    /// passed the pattern before the matcher sees it.
    pub fn from_build(kind: BuildErrorKind, message: String) -> (out: Option<Self>)
        ensures
            match kind {
                BuildErrorKind::Syntax => out is None,
                BuildErrorKind::CompiledTooBig => out matches Some(err) && err@
                    == ErrorView::RegexCompiledTooBig(message@),
                BuildErrorKind::Unspecified => out matches Some(err) && err@
                    == ErrorView::RegexUnspecified(message@),
            },
            out matches Some(err) ==> err@.of_pattern(),
    {
        match kind {
            BuildErrorKind::Syntax => None,
            BuildErrorKind::CompiledTooBig => Some(Self::RegexCompiledTooBig(message)),
            BuildErrorKind::Unspecified => Some(Self::RegexUnspecified(message)),
        }
    }

    /// The diagnostic for what the syntax parser says of `pattern`, which
    /// it does not pass under `flags`; `None` where it speaks of a place that
    /// does not lie in the pattern.
    pub fn from_syntax(pattern: &str, flags: &Flags, said: Option<(String, String)>) -> (out:
        Option<Self>)
        ensures
            match out {
                Some(err) => syntax_error_said(pattern@, *flags, said_view(said)) matches Some(
                    e,
                ) && err@ == ErrorView::RegexSyntax(e),
                None => syntax_error_said(pattern@, *flags, said_view(said)) is None,
            },
            out matches Some(err) ==> err@.of_pattern() && (err@ matches ErrorView::RegexSyntax(
                e,
            ) && e.runs_forward()),
    {
        match ReSyntax::from(pattern, flags, said) {
            Some(err) => Some(Self::RegexSyntax(Box::new(err))),
            None => None,
        }
    }
}

impl From<(Unescape, &'static str)> for Error {
    fn from(value: (Unescape, &'static str)) -> (err: Self) {
        let mut err = value.0;
        err.source = Some(value.1);
        Self::Unescape(Box::new(err))
    }
}

impl FromSpecImpl<(Unescape, &'static str)> for Error {
    open spec fn obeys_from_spec() -> bool {
        true
    }

    open spec fn from_spec(value: (Unescape, &'static str)) -> Self {
        Error::Unescape(Box::new(Unescape { source: Some(value.1), ..value.0 }))
    }
}

impl From<(Box<Unescape>, &'static str)> for Error {
    fn from(value: (Box<Unescape>, &'static str)) -> (err: Self) {
        let mut err = value.0;
        err.source = Some(value.1);
        Self::Unescape(err)
    }
}

impl FromSpecImpl<(Box<Unescape>, &'static str)> for Error {
    open spec fn obeys_from_spec() -> bool {
        true
    }

    open spec fn from_spec(value: (Box<Unescape>, &'static str)) -> Self {
        Error::Unescape(Box::new(Unescape { source: Some(value.1), ..*value.0 }))
    }
}

/// Why a request has no result.
#[derive(Debug)]
pub enum Failure {
    /// Something is wrong with the request, and this says what.
    Reported(Error),
    /// A collaborator broke its word: the syntax parser spoke of a place
    /// that does not lie in the pattern, or the matcher called a pattern ill
    /// formed that the syntax parser had passed. There is nothing to tell
    /// the host.
    Upstream,
}

/// What a `Failure` says.
pub enum FailureView {
    Reported(ErrorView),
    Upstream,
}

impl View for Failure {
    type V = FailureView;

    open spec fn view(&self) -> FailureView {
        match self {
            Failure::Reported(err) => FailureView::Reported(err@),
            Failure::Upstream => FailureView::Upstream,
        }
    }
}

/// The failure for a `pattern` that the parser does not pass under `flags`,
/// of which it says `said`: its syntax error, reported; or, where the parser
/// speaks of a place that does not lie in the pattern, that it broke its
/// word.
pub open spec fn syntax_failure(
    pattern: Seq<char>,
    flags: Flags,
    said: Option<(Seq<char>, Seq<char>)>,
) -> FailureView {
    match syntax_error_said(pattern, flags, said) {
        Some(err) => FailureView::Reported(ErrorView::RegexSyntax(err)),
        None => FailureView::Upstream,
    }
}

/// The failure for an error of the matcher of kind `kind` that reads
/// `message`. The matcher has broken its word where it calls the syntax
/// wrong of a pattern that the parser has passed.
pub open spec fn build_failure(kind: BuildErrorKind, message: Seq<char>) -> FailureView {
    match kind {
        BuildErrorKind::Syntax => FailureView::Upstream,
        BuildErrorKind::CompiledTooBig => FailureView::Reported(
            ErrorView::RegexCompiledTooBig(message),
        ),
        BuildErrorKind::Unspecified => FailureView::Reported(ErrorView::RegexUnspecified(message)),
    }
}

impl Failure {
    /// The failure for what the syntax parser says of `pattern`, which it
    /// does not pass under `flags`.
    pub fn from_syntax(pattern: &str, flags: &Flags, said: Option<(String, String)>) -> (failure:
        Self)
        ensures
            failure@ == syntax_failure(pattern@, *flags, said_view(said)),
            failure matches Failure::Reported(err) ==> err@.of_pattern() && (
            err@ matches ErrorView::RegexSyntax(e) && e.runs_forward()),
    {
        match Error::from_syntax(pattern, flags, said) {
            Some(err) => Failure::Reported(err),
            None => Failure::Upstream,
        }
    }

    /// The failure for an error of the matcher of kind `kind` that reads
    /// `message`.
    pub fn from_build(kind: BuildErrorKind, message: String) -> (failure: Self)
        ensures
            failure@ == build_failure(kind, message@),
            failure matches Failure::Reported(err) ==> err@.of_pattern(),
    {
        match Error::from_build(kind, message) {
            Some(err) => Failure::Reported(err),
            None => Failure::Upstream,
        }
    }

    /// The failure for an error in the input string that `source` names.
    pub fn from_unescape(err: Box<Unescape>, source: &'static str) -> (failure: Self)
        ensures
            failure@ == FailureView::Reported(
                ErrorView::Unescape(UnescapeView { source: Some(source@), ..err@ }),
            ),
    {
        Failure::Reported(Error::from((err, source)))
    }
}

} // verus!
