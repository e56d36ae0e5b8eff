//! String helpers: offsets between UTF-8 and UTF-16, lossy slicing, and
//! unescaping of quoted literals.

use std::borrow::Cow;

use vstd::prelude::*;
use vstd::slice::slice_subrange;
use vstd::string::{StringExecFns, StringSliceAdditionalSpecFns};
use vstd::utf8::*;

use crate::batch::{
    answer, ascending, cache_after, in_text, lemma_translation_unique, offsets_of, translates,
    translation,
};
use crate::encoding::{
    ceil_boundary, chars_before, first_occurrence, floor_boundary, lemma_ascii_alone,
    lemma_boundary_iff, lemma_boundary_in_tail, lemma_ceil_at_least, lemma_ceil_least,
    lemma_ceil_monotone, lemma_encode_nonempty, lemma_first_occurrence, lemma_nearest_boundaries,
    lemma_occurrence_boundaries, lemma_prefix_units, lemma_step, lemma_units_ceil,
    lemma_units_decode, units_before, units_of_byte, utf16_len, utf16_prefix, width_of_lead,
};
use crate::error::{pattern_message, unescape_error, Unescape, UnescapeView};
use crate::lexer::{escape_kind, item_fits, kind_of_code, lex_str, lexed_str, Item};
use crate::std_ext::sort_offsets;

verus! {

/// The bytes of a string are no more than a `usize` can count: `str::len`,
/// which is specified through a cast, is their exact number.
pub fn len_is_exact(s: &str)
    ensures
        s.len() == s.spec_bytes().len(),
{
    let _ = s.as_bytes().len();
}

/// Bytes taken by the code point that `lead` leads.
fn lead_width(lead: u8) -> (w: usize)
    ensures
        w == width_of_lead(lead),
        1 <= w <= 4,
{
    if lead < 0x80 {
        1
    } else if lead < 0xe0 {
        2
    } else if lead < 0xf0 {
        3
    } else {
        4
    }
}

/// UTF-16 code units of the code point that `lead` leads.
fn lead_units(lead: u8) -> (u: usize)
    ensures
        u == units_of_byte(lead),
        u <= 2,
{
    if 0x80 <= lead && lead <= 0xbf {
        0
    } else if lead >= 0xf0 {
        2
    } else {
        1
    }
}

/// Convert a single UTF-8 **byte** index to UTF-16: the UTF-16 length of the
/// text before byte `i`, which must lie on a code-point boundary.
pub fn utf16_index_bytes(s: &str, i: usize) -> (units: usize)
    requires
        is_char_boundary(s.spec_bytes(), i as int),
    ensures
        units == utf16_prefix(s.spec_bytes(), i as int),
{
    let bytes = s.as_bytes();
    proof {
        encode_utf8_valid_utf8(s@);
        lemma_prefix_units(bytes@, i as int);
        lemma_boundary_iff(bytes@, 0);
    }
    let mut pos: usize = 0;
    let mut total: usize = 0;
    while pos < i
        invariant
            valid_utf8(bytes@),
            is_char_boundary(bytes@, i as int),
            is_char_boundary(bytes@, pos as int),
            pos <= i <= bytes@.len(),
            total == units_before(bytes@, pos as int),
            total <= pos,
        decreases i - pos,
    {
        proof {
            lemma_step(bytes@, pos as int);
            lemma_boundary_iff(bytes@, i as int);
            lemma_prefix_units(bytes@, pos + width_of_lead(bytes@[pos as int]));
        }
        let lead = bytes[pos];
        total = total + lead_units(lead);
        pos = pos + lead_width(lead);
    }
    total
}

/// Take a single UTF-8 **char** index and convert it to UTF-16: the UTF-16
/// length of the first `i` code points of `s`, or of all of `s` if it has fewer.
pub fn utf16_index_chars(s: &str, i: usize) -> (units: usize)
    ensures
        units == utf16_len(s@.take(if i <= s@.len() { i as int } else { s@.len() as int })),
{
    let bytes = s.as_bytes();
    proof {
        encode_utf8_valid_utf8(s@);
        encode_utf8_decode_utf8(s@);
        lemma_boundary_iff(bytes@, 0);
        lemma_units_decode(bytes@);
    }
    let mut pos: usize = 0;
    let mut seen: usize = 0;
    let mut total: usize = 0;
    while seen < i && pos < bytes.len()
        invariant
            valid_utf8(bytes@),
            is_char_boundary(bytes@, pos as int),
            pos <= bytes@.len(),
            seen <= i,
            seen == chars_before(bytes@, pos as int),
            total == units_before(bytes@, pos as int),
            seen <= total <= pos,
        decreases bytes@.len() - pos,
    {
        proof {
            lemma_step(bytes@, pos as int);
            lemma_prefix_units(bytes@, pos + width_of_lead(bytes@[pos as int]));
        }
        let lead = bytes[pos];
        total = total + lead_units(lead);
        pos = pos + lead_width(lead);
        seen = seen + 1;
    }
    proof {
        let b = bytes@;
        lemma_prefix_units(b, pos as int);
        decode_utf8_split(b, pos as int);
        let head = decode_utf8(b.subrange(0, pos as int));
        assert(head.len() == seen);
        assert(decode_utf8(b) == s@);
        if pos == b.len() {
            assert(b.subrange(0, pos as int) == b);
        }
        assert(head == s@.take(seen as int));
    }
    total
}

/// Drop the repeats from an ascending vector.
fn dedup_sorted(v: &Vec<usize>) -> (out: Vec<usize>)
    requires
        forall|i: int, j: int| 0 <= i <= j < v@.len() ==> v@[i] <= v@[j],
    ensures
        ascending(out@),
        out@.to_set() == v@.to_set(),
{
    let mut out: Vec<usize> = Vec::with_capacity(v.len());
    let mut i: usize = 0;
    proof {
        assert(out@.to_set() =~= v@.take(0).to_set());
    }
    while i < v.len()
        invariant
            i <= v@.len(),
            forall|a: int, b: int| 0 <= a <= b < v@.len() ==> v@[a] <= v@[b],
            ascending(out@),
            out@.to_set() == v@.take(i as int).to_set(),
            out@.len() <= i,
            i > 0 ==> out@.len() > 0 && out@.last() == v@[i - 1],
        decreases v@.len() - i,
    {
        let x = v[i];
        let ghost before = out@;
        proof {
            assert(v@.take(i + 1) =~= v@.take(i as int).push(x));
            v@.take(i as int).lemma_push_to_set_commute(x);
        }
        if out.len() == 0 || out[out.len() - 1] != x {
            out.push(x);
            proof {
                before.lemma_push_to_set_commute(x);
                assert forall|a: int, b: int| 0 <= a < b < out@.len() implies out@[a] < out@[b] by {
                    if b == before.len() {
                        assert(v@[i - 1] <= v@[i as int]);
                        assert(before.last() < x);
                        if a < before.len() - 1 {
                            assert(before[a] < before[before.len() - 1]);
                        }
                    } else {
                        assert(before[a] < before[b]);
                    }
                }
            }
        } else {
            proof {
                assert(before.contains(before.last()));
                assert(before.to_set().insert(x) =~= before.to_set());
            }
        }
        i = i + 1;
    }
    proof {
        assert(v@.take(i as int) =~= v@);
    }
    out
}

/// The cache of the walk, as the model has it.
pub open spec fn cache_view(residual: Option<(usize, usize)>) -> Option<(int, nat)> {
    match residual {
        Some(r) => Some((r.0 as int, r.1 as nat)),
        None => None,
    }
}

/// Take an unsorted list of UTF-8 indices; sort them, drop the repeats, and
/// return a map of `utf8_index -> utf16_index` in ascending order.
///
/// No index may lie beyond the end of the string.
pub fn utf16_index_bytes_slice(s: &str, indices: Vec<usize>) -> (ret: Vec<(usize, usize)>)
    requires
        in_text(s.spec_bytes(), indices@),
    ensures
        translates(s.spec_bytes(), indices@, ret@),
        ret@ == translation(s.spec_bytes(), indices@.to_set()),
{
    let bytes = s.as_bytes();
    let mut sorted = indices;
    sort_offsets(&mut sorted);
    let qs = dedup_sorted(&sorted);
    proof {
        encode_utf8_valid_utf8(s@);
        lemma_boundary_iff(bytes@, 0);
        assert forall|x: usize| sorted@.contains(x) <==> indices@.contains(x) by {
            vstd::seq_lib::to_multiset_contains(sorted@, x);
            vstd::seq_lib::to_multiset_contains(indices@, x);
        }
        assert(sorted@.to_set() =~= indices@.to_set());
        assert forall|j: int| 0 <= j < qs@.len() implies qs@[j] <= bytes@.len() by {
            assert(qs@.contains(qs@[j]));
            assert(qs@.to_set().contains(qs@[j]));
            assert(indices@.contains(qs@[j]));
        }
    }
    let mut ret: Vec<(usize, usize)> = Vec::with_capacity(qs.len());
    // running total of the UTF-16 string's length, up to `pos`
    let mut total: usize = 0;
    // byte offset of the next code point that the walk has not passed
    let mut pos: usize = 0;
    // If we find a match that's not exact (an index inside a code point),
    // save it for reuse here
    let mut residual: Option<(usize, usize)> = None;
    let mut k: usize = 0;
    proof {
        assert(offsets_of(ret@) =~= qs@.take(0));
    }
    while k < qs.len()
        invariant
            valid_utf8(bytes@),
            ascending(qs@),
            forall|j: int| 0 <= j < qs@.len() ==> qs@[j] <= bytes@.len(),
            k <= qs@.len(),
            ret@.len() == k,
            offsets_of(ret@) == qs@.take(k as int),
            forall|j: int| 0 <= j < k ==> (#[trigger] ret@[j]).1 == answer(bytes@, qs@, j),
            is_char_boundary(bytes@, pos as int),
            pos <= bytes@.len(),
            total == units_before(bytes@, pos as int),
            total <= pos,
            cache_view(residual) == cache_after(bytes@, qs@, k as int),
            residual matches Some(r) ==> r.0 == pos,
            residual is None && k > 0 ==> pos <= ceil_boundary(bytes@, qs@[k - 1] + 1),
            k == 0 ==> pos == 0,
        decreases qs@.len() - k,
    {
        let idxu8 = qs[k];
        let ghost before = ret@;
        // We have a stored value: the index lies between the one that left
        // it and the end of the code point found then. Just push the cached
        // value.
        let cached: Option<usize> = match residual {
            Some((valid_until, last_u16_offset)) => if idxu8 < valid_until {
                Some(last_u16_offset)
            } else {
                None
            },
            None => None,
        };
        match cached {
            Some(last_u16_offset) => {
                ret.push((idxu8, last_u16_offset));
            },
            None => {
                proof {
                    lemma_ceil_at_least(bytes@, idxu8 as int);
                    if k > 0 {
                        lemma_ceil_monotone(bytes@, qs@[k - 1] + 1, idxu8 as int);
                    }
                    lemma_nearest_boundaries(bytes@, idxu8 as int);
                    lemma_units_ceil(bytes@, idxu8 as int);
                    lemma_prefix_units(bytes@, ceil_boundary(bytes@, idxu8 as int));
                }
                // Walk to the first code point that starts at the index (=)
                // or after it (>).
                let mut hit: Option<(usize, usize, usize)> = None;
                while hit.is_none() && pos < bytes.len()
                    invariant
                        valid_utf8(bytes@),
                        idxu8 <= bytes@.len(),
                        is_char_boundary(bytes@, pos as int),
                        pos <= bytes@.len(),
                        total == units_before(bytes@, pos as int),
                        total <= pos,
                        hit is None ==> pos <= ceil_boundary(bytes@, idxu8 as int),
                        hit matches Some(h) ==> {
                            &&& h.0 == ceil_boundary(bytes@, idxu8 as int)
                            &&& idxu8 <= h.0 < bytes@.len()
                            &&& h.1 == width_of_lead(bytes@[h.0 as int])
                            &&& pos == h.0 + h.1
                            &&& h.2 == units_before(bytes@, h.0 as int)
                        },
                    decreases bytes@.len() - pos,
                {
                    proof {
                        lemma_step(bytes@, pos as int);
                        lemma_prefix_units(bytes@, pos + width_of_lead(bytes@[pos as int]));
                        lemma_units_ceil(bytes@, idxu8 as int);
                        if pos >= idxu8 {
                            lemma_ceil_least(bytes@, idxu8 as int, pos as int);
                        }
                    }
                    let lead = bytes[pos];
                    let byte_idx = pos;
                    let ch8_len = lead_width(lead);
                    let u16_offset = total;
                    total = total + lead_units(lead);
                    pos = pos + ch8_len;
                    if byte_idx >= idxu8 {
                        hit = Some((byte_idx, ch8_len, u16_offset));
                    }
                }
                match hit {
                    Some((byte_idx, ch8_len, u16_offset)) => {
                        proof {
                            lemma_step(bytes@, byte_idx as int);
                        }
                        ret.push((idxu8, u16_offset));
                        // If we matched the next code point instead of the
                        // exact index, we will want to reuse this offset
                        if byte_idx > idxu8 {
                            residual = Some((byte_idx + ch8_len, u16_offset));
                        } else {
                            residual = None;
                        }
                    },
                    None => {
                        // Not found: the walk has reached the end, and the
                        // last known value stands for every index left.
                        ret.push((idxu8, total));
                        residual = None;
                        proof {
                            lemma_ceil_monotone(bytes@, idxu8 as int, idxu8 + 1);
                        }
                    },
                }
            },
        }
        proof {
            assert(qs@.take(k + 1) =~= qs@.take(k as int).push(idxu8));
            assert(offsets_of(ret@) =~= offsets_of(before).push(idxu8));
            assert forall|j: int| 0 <= j < k + 1 implies (#[trigger] ret@[j]).1 == answer(
                bytes@,
                qs@,
                j,
            ) by {
                if j < k {
                    assert(ret@[j] == before[j]);
                }
            }
        }
        k = k + 1;
    }
    proof {
        assert(qs@.take(k as int) =~= qs@);
        lemma_translation_unique(bytes@, indices@.to_set(), ret@, ret@);
    }
    ret
}

/// Whether two byte slices hold the same bytes.
fn bytes_eq(a: &[u8], b: &[u8]) -> (same: bool)
    ensures
        same == (a@ == b@),
{
    if a.len() != b.len() {
        return false;
    }
    let mut i: usize = 0;
    while i < a.len()
        invariant
            a@.len() == b@.len(),
            i <= a@.len(),
            forall|j: int| 0 <= j < i ==> a@[j] == b@[j],
        decreases a@.len() - i,
    {
        if a[i] != b[i] {
            return false;
        }
        i = i + 1;
    }
    proof {
        assert(a@ =~= b@);
    }
    true
}

/// Whether two strings are the same text.
fn str_eq(a: &str, b: &str) -> (same: bool)
    ensures
        same == (a@ == b@),
{
    proof {
        encode_utf8_decode_utf8(a@);
        encode_utf8_decode_utf8(b@);
    }
    bytes_eq(a.as_bytes(), b.as_bytes())
}

/// The quoting convention that a string is written in.
#[derive(Clone, Copy, Debug, PartialEq, Eq, Structural)]
pub enum StrType {
    /// No preprocessing
    Ignore,
    /// Escape as a str, `"string"`
    Str,
    /// Escape as a raw str, `r"string"`
    RawStr,
    /// Escape as a 1-hashed raw str, `r#"string"#`
    RawStrHash1,
    /// Escape as a 2-hashed raw str, `r##"string"##`
    RawStrHash2,
    /// Escape as a 3-hashed raw str, `r###"string"###`
    RawStrHash3,
    /// Escape as a 4-hashed raw str, `r####"string"####`
    RawStrHash4,
}

impl Default for StrType {
    fn default() -> (t: Self)
        ensures
            t == StrType::Ignore,
    {
        StrType::Ignore
    }
}

impl StrType {
    /// A singular noun description of the string type.
    pub open spec fn noun(self) -> Seq<char> {
        match self {
            StrType::Ignore => "unescaped"@,
            StrType::Str => "standard"@,
            StrType::RawStr => "raw"@,
            StrType::RawStrHash1 => "r#"@,
            StrType::RawStrHash2 => "r##"@,
            StrType::RawStrHash3 => "r###"@,
            StrType::RawStrHash4 => "r####"@,
        }
    }

    /// The text that closes a raw string of this type, which such a string
    /// may therefore not contain.
    pub open spec fn closing(self) -> Option<Seq<char>> {
        match self {
            StrType::Ignore => None,
            StrType::Str => None,
            StrType::RawStr => Some("\""@),
            StrType::RawStrHash1 => Some("\"#"@),
            StrType::RawStrHash2 => Some("\"##"@),
            StrType::RawStrHash3 => Some("\"###"@),
            StrType::RawStrHash4 => Some("\"####"@),
        }
    }

    /// The string type that a host names `value`, if it names one. No name
    /// stands for `Ignore`.
    pub open spec fn named(value: Option<Seq<char>>) -> Option<StrType> {
        match value {
            None => Some(StrType::Ignore),
            Some(name) => if name == "ignore"@ {
                Some(StrType::Ignore)
            } else if name == "str"@ {
                Some(StrType::Str)
            } else if name == "raw"@ {
                Some(StrType::RawStr)
            } else if name == "rawhash1"@ {
                Some(StrType::RawStrHash1)
            } else if name == "rawhash2"@ {
                Some(StrType::RawStrHash2)
            } else if name == "rawhash3"@ {
                Some(StrType::RawStrHash3)
            } else if name == "rawhash4"@ {
                Some(StrType::RawStrHash4)
            } else {
                None
            },
        }
    }

    /// Give a singular noun description of the string type.
    pub fn to_string(&self) -> (noun: String)
        ensures
            noun@ == self.noun(),
    {
        match self {
            StrType::Ignore => String::from_str("unescaped"),
            StrType::Str => String::from_str("standard"),
            StrType::RawStr => String::from_str("raw"),
            StrType::RawStrHash1 => String::from_str("r#"),
            StrType::RawStrHash2 => String::from_str("r##"),
            StrType::RawStrHash3 => String::from_str("r###"),
            StrType::RawStrHash4 => String::from_str("r####"),
        }
    }

    /// The string type that `value` names, or `None` where it names none.
    pub fn parse(value: Option<&str>) -> (t: Option<Self>)
        ensures
            t == Self::named(
                match value {
                    Some(name) => Some(name@),
                    None => None,
                },
            ),
    {
        match value {
            None => Some(Self::Ignore),
            Some(name) => if str_eq(name, "ignore") {
                Some(Self::Ignore)
            } else if str_eq(name, "str") {
                Some(Self::Str)
            } else if str_eq(name, "raw") {
                Some(Self::RawStr)
            } else if str_eq(name, "rawhash1") {
                Some(Self::RawStrHash1)
            } else if str_eq(name, "rawhash2") {
                Some(Self::RawStrHash2)
            } else if str_eq(name, "rawhash3") {
                Some(Self::RawStrHash3)
            } else if str_eq(name, "rawhash4") {
                Some(Self::RawStrHash4)
            } else {
                None
            },
        }
    }

    /// The string type that `value` names. It must name one.
    pub fn from(value: Option<&str>) -> (t: Self)
        requires
            Self::named(
                match value {
                    Some(name) => Some(name@),
                    None => None,
                },
            ) is Some,
        ensures
            Some(t) == Self::named(
                match value {
                    Some(name) => Some(name@),
                    None => None,
                },
            ),
    {
        Self::parse(value).unwrap()
    }
}

/// Backslashes that stand in a row right before byte `i`.
pub open spec fn slashes_before(bytes: Seq<u8>, i: int) -> nat
    decreases i,
{
    if i <= 0 || bytes[i - 1] != 0x5c {
        0
    } else {
        1 + slashes_before(bytes, i - 1)
    }
}

/// Whether byte `i` is a double quote that no backslash escapes: the
/// backslashes in a row before it are even in number, none included.
pub open spec fn bare_quote_at(bytes: Seq<u8>, i: int) -> bool {
    0 <= i < bytes.len() && bytes[i] == 0x22 && slashes_before(bytes, i) % 2 == 0
}

/// The first double quote at or after byte `from` that no backslash escapes.
pub open spec fn first_bare_quote(bytes: Seq<u8>, from: int) -> Option<int>
    decreases bytes.len() - from,
{
    if from < 0 || from >= bytes.len() {
        None
    } else if bare_quote_at(bytes, from) {
        Some(from)
    } else {
        first_bare_quote(bytes, from + 1)
    }
}

/// What `out` says: the text, or the error.
pub open spec fn outcome_view(out: Result<Cow<str>, Box<Unescape>>) -> Result<
    Seq<char>,
    UnescapeView,
> {
    match out {
        Ok(text) => Ok(text@),
        Err(err) => Err(err@),
    }
}

/// Check for unescaped quotes: `Ok` where every double quote of `s` has an
/// odd number of backslashes in a row before it, else the error at the first
/// that has not.
pub fn check_unescaped_quotes(s: &str) -> (out: Result<(), Box<Unescape>>)
    requires
        s.len() < usize::MAX - 5,
    ensures
        match out {
            Ok(_) => first_bare_quote(s.spec_bytes(), 0) is None,
            Err(err) => first_bare_quote(s.spec_bytes(), 0) matches Some(i) && err@
                == unescape_error(s.spec_bytes(), i, i + 1, "unescaped '\"' in string"@),
        },
{
    // bad: `"`, `\\"`. ok: `\"`
    let bytes = s.as_bytes();
    len_is_exact(s);
    proof {
        encode_utf8_valid_utf8(s@);
    }
    let mut run: usize = 0;
    let mut i: usize = 0;
    while i < bytes.len()
        invariant
            valid_utf8(bytes@),
            bytes@ == s.spec_bytes(),
            bytes@.len() < usize::MAX - 5,
            i <= bytes@.len(),
            run == slashes_before(bytes@, i as int),
            run <= i,
            first_bare_quote(bytes@, 0) == first_bare_quote(bytes@, i as int),
        decreases bytes@.len() - i,
    {
        let ch = bytes[i];
        // odd number of slashes = ok (quote escaped), even = bad
        if ch == 0x22 && run % 2 == 0 {
            proof {
                lemma_ascii_alone(bytes@, i as int);
                crate::error::lemma_lines_bounded(bytes@, i + 1, i + 1);
            }
            let (span, span_utf16) = crate::error::Span::from_offsets(s, i..(i + 1));
            let err = Unescape {
                message: String::from_str("unescaped '\"' in string"),
                span,
                span_utf16,
                source: None,
            };
            return Err(Box::new(err));
        }
        if ch == 0x5c {
            run = run + 1;
        } else {
            run = 0;
        }
        i = i + 1;
    }
    Ok(())
}

/// Whether `byte` stands among `bytes`.
fn contains_byte(bytes: &[u8], byte: u8) -> (found: bool)
    ensures
        found == bytes@.contains(byte),
{
    let mut i: usize = 0;
    while i < bytes.len()
        invariant
            i <= bytes@.len(),
            forall|j: int| 0 <= j < i ==> bytes@[j] != byte,
        decreases bytes@.len() - i,
    {
        if bytes[i] == byte {
            return true;
        }
        i = i + 1;
    }
    false
}

/// Where `pat` first stands in `hay`.
fn find_bytes(hay: &[u8], pat: &[u8]) -> (at: Option<usize>)
    ensures
        match at {
            Some(i) => first_occurrence(hay@, pat@, 0) == Some(i as int),
            None => first_occurrence(hay@, pat@, 0) is None,
        },
{
    let hay_len = hay.len();
    let pat_len = pat.len();
    if pat_len > hay_len {
        return None;
    }
    let last = hay_len - pat_len;
    let mut i: usize = 0;
    while i <= last
        invariant
            hay_len == hay@.len(),
            pat_len == pat@.len(),
            last == hay_len - pat_len,
            i <= last,
            first_occurrence(hay@, pat@, 0) == first_occurrence(hay@, pat@, i as int),
        decreases last - i,
    {
        if bytes_eq(slice_subrange(hay, i, i + pat_len), pat) {
            return Some(i);
        }
        if i == last {
            return None;
        }
        i = i + 1;
    }
    None
}

/// What the items that the decoder read from `bytes` come to: the characters
/// of all of them, if none is an error; else the error of the first that is.
pub open spec fn collected(bytes: Seq<u8>, items: Seq<Item>) -> Result<Seq<char>, UnescapeView>
    decreases items.len(),
{
    if items.len() == 0 {
        Ok(Seq::empty())
    } else {
        match collected(bytes, items.drop_last()) {
            Err(err) => Err(err),
            Ok(text) => match items.last().2 {
                Ok(ch) => Ok(text.push(ch)),
                Err(code) => Err(
                    unescape_error(
                        bytes,
                        items.last().0 as int,
                        items.last().1 as int,
                        kind_of_code(code).message(),
                    ),
                ),
            },
        }
    }
}

/// Gather what the decoder read from `s` into the unescaped text, up to the
/// first error.
pub fn collect_unescaped(s: &str, items: &Vec<Item>) -> (out: Result<String, Box<Unescape>>)
    requires
        s.len() < usize::MAX - 5,
        forall|i: int| 0 <= i < items@.len() ==> item_fits(s.spec_bytes(), #[trigger] items@[i]),
    ensures
        match out {
            Ok(text) => collected(s.spec_bytes(), items@) == Ok::<Seq<char>, UnescapeView>(text@),
            Err(err) => collected(s.spec_bytes(), items@) == Err::<Seq<char>, UnescapeView>(err@),
        },
{
    len_is_exact(s);
    let mut ret = String::new();
    let mut i: usize = 0;
    while i < items.len()
        invariant
            s.spec_bytes().len() < usize::MAX - 5,
            forall|j: int|
                0 <= j < items@.len() ==> item_fits(s.spec_bytes(), #[trigger] items@[j]),
            i <= items@.len(),
            collected(s.spec_bytes(), items@.take(i as int)) == Ok::<Seq<char>, UnescapeView>(ret@),
        decreases items@.len() - i,
    {
        let item = &items[i];
        proof {
            assert(items@.take(i + 1).drop_last() =~= items@.take(i as int));
            assert(items@.take(i + 1).last() == items@[i as int]);
            assert(item_fits(s.spec_bytes(), items@[i as int]));
        }
        match item.2 {
            Ok(ch) => {
                ret.push(ch);
            },
            Err(code) => {
                proof {
                    encode_utf8_valid_utf8(s@);
                    lemma_boundary_iff(s.spec_bytes(), item.1 as int);
                    crate::error::lemma_lines_bounded(s.spec_bytes(), item.1 as int, item.1 as int);
                    lemma_collected_stops(s.spec_bytes(), items@, i + 1);
                }
                return Err(Box::new(Unescape::from((s, item.0..item.1, escape_kind(code)))));
            },
        }
        i = i + 1;
    }
    proof {
        assert(items@.take(i as int) =~= items@);
    }
    Ok(ret)
}

/// After an error, further items change nothing.
proof fn lemma_collected_stops(bytes: Seq<u8>, items: Seq<Item>, upto: int)
    requires
        0 <= upto <= items.len(),
        collected(bytes, items.take(upto)) is Err,
    ensures
        collected(bytes, items) == collected(bytes, items.take(upto)),
    decreases items.len() - upto,
{
    if upto < items.len() {
        assert(items.take(upto + 1).drop_last() =~= items.take(upto));
        lemma_collected_stops(bytes, items, upto + 1);
    } else {
        assert(items.take(upto) =~= items);
    }
}

/// The given name of a string type, as text.
pub open spec fn name_view(seperator: Option<String>) -> Option<Seq<char>> {
    match seperator {
        Some(name) => Some(name@),
        None => None,
    }
}

/// What unescaping the string `s` of type `sep` comes to, where `items` is
/// what the decoder reads from `s`.
///
/// - `Ignore`: `s` as it is.
/// - A raw string: an error at the first place where `s` holds the text
///   that closes such a string, else `s` as it is.
/// - A standard string: `s` as it is if it holds no backslash. Else an error
///   at the first double quote that no backslash escapes; else what the
///   items come to.
pub open spec fn unescape_outcome(s: Seq<char>, sep: StrType, items: Seq<Item>) -> Result<
    Seq<char>,
    UnescapeView,
> {
    let bytes = encode_utf8(s);
    match sep {
        StrType::Ignore => Ok(s),
        StrType::Str => if !bytes.contains(0x5c) {
            Ok(s)
        } else {
            match first_bare_quote(bytes, 0) {
                Some(i) => Err(unescape_error(bytes, i, i + 1, "unescaped '\"' in string"@)),
                None => collected(bytes, items),
            }
        },
        _ => {
            let pat = sep.closing().unwrap();
            match first_occurrence(bytes, encode_utf8(pat), 0) {
                Some(i) => Err(
                    unescape_error(bytes, i, i + encode_utf8(pat).len(), pattern_message(pat, sep)),
                ),
                None => Ok(s),
            }
        },
    }
}

/// Unescape `s` as a string of type `sep`.
pub fn unescape_impl<'a>(s: &'a str, sep: StrType) -> (out: Result<Cow<'a, str>, Box<Unescape>>)
    requires
        s.len() < usize::MAX - 5,
    ensures
        outcome_view(out) == unescape_outcome(s@, sep, lexed_str(s@)),
{
    len_is_exact(s);
    // quickcheck patterns that we know our string can't contain
    let check_pat: Option<&str> = match sep {
        StrType::Ignore => {
            return Ok(Cow::Borrowed(s));
        },
        // This would only really be `"` but not `\"`, can't check with a search
        StrType::Str => None,
        StrType::RawStr => Some("\""),
        StrType::RawStrHash1 => Some("\"#"),
        StrType::RawStrHash2 => Some("\"##"),
        StrType::RawStrHash3 => Some("\"###"),
        StrType::RawStrHash4 => Some("\"####"),
    };
    if let Some(pat) = check_pat {
        proof {
            lemma_first_occurrence(s.spec_bytes(), pat.spec_bytes(), 0);
        }
        if let Some(idx) = find_bytes(s.as_bytes(), pat.as_bytes()) {
            // error, contains forbidden pattern
            proof {
                reveal_strlit("\"");
                reveal_strlit("\"#");
                reveal_strlit("\"##");
                reveal_strlit("\"###");
                reveal_strlit("\"####");
                lemma_encode_nonempty(pat@);
                encode_utf8_valid_utf8(s@);
                encode_utf8_valid_utf8(pat@);
                lemma_occurrence_boundaries(s.spec_bytes(), pat.spec_bytes(), idx as int);
                let end = idx + pat.spec_bytes().len();
                crate::error::lemma_lines_bounded(s.spec_bytes(), end, end);
            }
            return Err(Box::new(Unescape::from_pat(s, pat, idx, sep)));
        }
        return Ok(Cow::Borrowed(s));
    }
    // no need for special behavior if we don't have any escapes
    if !contains_byte(s.as_bytes(), 0x5c) {
        return Ok(Cow::Borrowed(s));
    }
    match check_unescaped_quotes(s) {
        Err(err) => {
            return Err(err);
        },
        Ok(_) => {},
    }
    // at this point, we have a `str` that needs unescaping
    let items = lex_str(s);
    match collect_unescaped(s, &items) {
        Ok(text) => Ok(Cow::Owned(text)),
        Err(err) => Err(err),
    }
}

/// Given an optional string type, unescape any `\` characters in a string
///
/// Signature is meant to be easy for a host
pub fn unescape<'a>(s: &'a str, seperator: &Option<String>) -> (out: Result<
    Cow<'a, str>,
    Box<Unescape>,
>)
    requires
        s.len() < usize::MAX - 5,
        StrType::named(name_view(*seperator)) is Some,
    ensures
        outcome_view(out) == unescape_outcome(
            s@,
            StrType::named(name_view(*seperator)).unwrap(),
            lexed_str(s@),
        ),
{
    let name: Option<&str> = match seperator {
        Some(name) => Some(name.as_str()),
        None => None,
    };
    unescape_impl(s, StrType::from(name))
}

/// The hexadecimal digit for `n`, in lower case.
pub open spec fn hex_digit(n: int) -> char {
    if n == 0 {
        '0'
    } else if n == 1 {
        '1'
    } else if n == 2 {
        '2'
    } else if n == 3 {
        '3'
    } else if n == 4 {
        '4'
    } else if n == 5 {
        '5'
    } else if n == 6 {
        '6'
    } else if n == 7 {
        '7'
    } else if n == 8 {
        '8'
    } else if n == 9 {
        '9'
    } else if n == 10 {
        'a'
    } else if n == 11 {
        'b'
    } else if n == 12 {
        'c'
    } else if n == 13 {
        'd'
    } else if n == 14 {
        'e'
    } else {
        'f'
    }
}

/// The four characters that stand for a byte outside of any text: `\x` and
/// its two hexadecimal digits.
pub open spec fn escaped_byte(byte: u8) -> Seq<char> {
    seq!['\\', 'x', hex_digit(byte as int / 16), hex_digit(byte as int % 16)]
}

/// Each of `bytes` as its four characters.
pub open spec fn escaped_bytes(bytes: Seq<u8>) -> Seq<char>
    decreases bytes.len(),
{
    if bytes.len() == 0 {
        Seq::empty()
    } else {
        escaped_bytes(bytes.drop_last()) + escaped_byte(bytes.last())
    }
}

/// The bytes of a text from `start` up to `end`, read as text: the code
/// points that lie in the range whole, as they are; each byte of a code
/// point that the range cuts, as its four characters.
pub open spec fn lossy_slice(bytes: Seq<u8>, start: int, end: int) -> Seq<char> {
    let first = ceil_boundary(bytes, start);
    let last = floor_boundary(bytes, end);
    if first <= last {
        escaped_bytes(bytes.subrange(start, first)) + decode_utf8(bytes.subrange(first, last))
            + escaped_bytes(bytes.subrange(last, end))
    } else {
        escaped_bytes(bytes.subrange(start, end))
    }
}

/// A range that starts and ends on code-point boundaries reads as the text
/// that it holds: nothing of it is escaped.
pub proof fn law_lossy_slice_on_boundaries(bytes: Seq<u8>, start: int, end: int)
    requires
        valid_utf8(bytes),
        is_char_boundary(bytes, start),
        is_char_boundary(bytes, end),
        start <= end,
    ensures
        lossy_slice(bytes, start, end) == decode_utf8(bytes.subrange(start, end)),
{
    lemma_boundary_iff(bytes, start);
    lemma_boundary_iff(bytes, end);
    lemma_nearest_boundaries(bytes, start);
    lemma_nearest_boundaries(bytes, end);
    assert(bytes.subrange(start, start) =~= Seq::<u8>::empty());
    assert(bytes.subrange(end, end) =~= Seq::<u8>::empty());
    assert(lossy_slice(bytes, start, end) =~= decode_utf8(bytes.subrange(start, end)));
}

/// The hexadecimal digit for `n`.
fn hex_char(n: u8) -> (digit: char)
    requires
        n < 16,
    ensures
        digit == hex_digit(n as int),
{
    match n {
        0 => '0',
        1 => '1',
        2 => '2',
        3 => '3',
        4 => '4',
        5 => '5',
        6 => '6',
        7 => '7',
        8 => '8',
        9 => '9',
        10 => 'a',
        11 => 'b',
        12 => 'c',
        13 => 'd',
        14 => 'e',
        _ => 'f',
    }
}

/// Push the bytes from `from` up to `to`, each formatted as `\xff`.
fn push_escaped(ret: &mut String, bytes: &[u8], from: usize, to: usize)
    requires
        from <= to <= bytes@.len(),
    ensures
        final(ret)@ == old(ret)@ + escaped_bytes(bytes@.subrange(from as int, to as int)),
{
    let mut i = from;
    proof {
        assert(bytes@.subrange(from as int, from as int) =~= Seq::<u8>::empty());
        assert(ret@ =~= old(ret)@ + Seq::<char>::empty());
    }
    while i < to
        invariant
            from <= i <= to <= bytes@.len(),
            ret@ == old(ret)@ + escaped_bytes(bytes@.subrange(from as int, i as int)),
        decreases to - i,
    {
        let byte = bytes[i];
        let ghost before = ret@;
        ret.push('\\');
        ret.push('x');
        ret.push(hex_char(byte / 16));
        ret.push(hex_char(byte % 16));
        proof {
            let upto = bytes@.subrange(from as int, i + 1);
            assert(upto.drop_last() =~= bytes@.subrange(from as int, i as int));
            assert(upto.last() == byte);
            assert(ret@ =~= before + escaped_byte(byte));
        }
        i = i + 1;
    }
}

/// Return a sliced string if valid UTF-8. Otherwise, replace the bytes of
/// the code points that the slice cuts with an escape sequence (e.g. "this
/// part is valid \x1f but that wasn't")
pub fn str_from_utf8_rep(text: &str, start: usize, end: usize) -> (ret: Cow<'_, str>)
    requires
        start <= end <= text.spec_bytes().len(),
    ensures
        ret@ == lossy_slice(text.spec_bytes(), start as int, end as int),
{
    let bytes = text.as_bytes();
    proof {
        encode_utf8_valid_utf8(text@);
        lemma_nearest_boundaries(bytes@, start as int);
        lemma_nearest_boundaries(bytes@, end as int);
    }
    let mut first = start;
    while first < bytes.len() && 0x80 <= bytes[first] && bytes[first] <= 0xbf
        invariant
            start <= first <= bytes@.len(),
            ceil_boundary(bytes@, start as int) == ceil_boundary(bytes@, first as int),
        decreases bytes@.len() - first,
    {
        first = first + 1;
    }
    let mut last = end;
    while 0 < last && last < bytes.len() && 0x80 <= bytes[last] && bytes[last] <= 0xbf
        invariant
            last <= end <= bytes@.len(),
            floor_boundary(bytes@, end as int) == floor_boundary(bytes@, last as int),
        decreases last,
    {
        last = last - 1;
    }
    if first > last {
        let mut ret = String::new();
        push_escaped(&mut ret, bytes, start, end);
        return Cow::Owned(ret);
    }
    proof {
        lemma_boundary_in_tail(bytes@, first as int, last as int);
        valid_utf8_split(bytes@, last as int);
    }
    let head = text.split_at(last).0;
    proof {
        let hb = head.spec_bytes();
        lemma_boundary_iff(hb, first as int);
        lemma_boundary_iff(bytes@, first as int);
        if first < hb.len() {
            assert(hb[first as int] == bytes@[first as int]);
        }
        assert(hb.subrange(first as int, hb.len() as int) =~= bytes@.subrange(
            first as int,
            last as int,
        ));
    }
    let whole = head.split_at(first).1;
    proof {
        encode_utf8_decode_utf8(whole@);
    }
    // Short circuit: entire slice is valid UTF-8
    if first == start && last == end {
        proof {
            assert(bytes@.subrange(start as int, first as int) =~= Seq::<u8>::empty());
            assert(bytes@.subrange(last as int, end as int) =~= Seq::<u8>::empty());
            assert(whole@ =~= Seq::<char>::empty() + whole@ + Seq::<char>::empty());
        }
        return Cow::Borrowed(whole);
    }
    let mut ret = String::new();
    push_escaped(&mut ret, bytes, start, first);
    ret.append(whole);
    push_escaped(&mut ret, bytes, last, end);
    proof {
        assert(ret@ =~= escaped_bytes(bytes@.subrange(start as int, first as int)) + whole@
            + escaped_bytes(bytes@.subrange(last as int, end as int)));
    }
    Cow::Owned(ret)
}

} // verus!
