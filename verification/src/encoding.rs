//! UTF-8 byte sequences seen from the UTF-16 side: where code points start,
//! and how many UTF-16 code units lie before a byte offset.

use vstd::prelude::*;
use vstd::utf8::*;

verus! {

/// UTF-16 code units that `c` takes: two outside the basic plane, else one.
pub open spec fn char_units(c: char) -> nat {
    if c as u32 >= 0x10000 {
        2
    } else {
        1
    }
}

/// Length of `chars` in UTF-16 code units.
pub open spec fn utf16_len(chars: Seq<char>) -> nat
    decreases chars.len(),
{
    if chars.len() == 0 {
        0
    } else {
        char_units(chars[0]) + utf16_len(chars.drop_first())
    }
}

/// UTF-16 length of the text encoded by the first `i` bytes, for `i` on a
/// code-point boundary of valid UTF-8.
pub open spec fn utf16_prefix(bytes: Seq<u8>, i: int) -> nat {
    utf16_len(decode_utf8(bytes.subrange(0, i)))
}

/// The first offset at or after `i` that does not point at a continuation
/// byte: in valid UTF-8, the least code-point boundary that is not below `i`.
pub open spec fn ceil_boundary(bytes: Seq<u8>, i: int) -> int
    decreases bytes.len() - i,
{
    if 0 <= i < bytes.len() && is_continuation_byte(bytes[i]) {
        ceil_boundary(bytes, i + 1)
    } else {
        i
    }
}

/// The last offset at or before `i` that does not point at a continuation
/// byte: in valid UTF-8, the greatest code-point boundary that is not above `i`.
pub open spec fn floor_boundary(bytes: Seq<u8>, i: int) -> int
    decreases i,
{
    if 0 < i < bytes.len() && is_continuation_byte(bytes[i]) {
        floor_boundary(bytes, i - 1)
    } else {
        i
    }
}

/// UTF-16 code units of the code point that `byte` leads; a continuation byte
/// leads none.
pub open spec fn units_of_byte(byte: u8) -> nat {
    if is_continuation_byte(byte) {
        0
    } else if byte >= 0xf0 {
        2
    } else {
        1
    }
}

/// UTF-16 code units of the code points that start before byte `upto`.
pub open spec fn units_before(bytes: Seq<u8>, upto: int) -> nat
    decreases upto,
{
    if upto <= 0 {
        0
    } else {
        units_before(bytes, upto - 1) + units_of_byte(bytes[upto - 1])
    }
}

/// Code points that start before byte `upto`.
pub open spec fn chars_before(bytes: Seq<u8>, upto: int) -> nat
    decreases upto,
{
    if upto <= 0 {
        0
    } else {
        chars_before(bytes, upto - 1) + if is_continuation_byte(bytes[upto - 1]) {
            0nat
        } else {
            1nat
        }
    }
}

/// Bytes that the code point led by `lead` takes.
pub open spec fn width_of_lead(lead: u8) -> int {
    if lead < 0x80 {
        1
    } else if lead < 0xe0 {
        2
    } else if lead < 0xf0 {
        3
    } else {
        4
    }
}

/// The first code point of a valid sequence: a lead byte, then as many
/// continuation bytes as the lead announces.
pub proof fn lemma_first_scalar_shape(b: Seq<u8>)
    requires
        valid_utf8(b),
        b.len() > 0,
    ensures
        length_of_first_scalar(b) == width_of_lead(b[0]),
        width_of_lead(b[0]) <= b.len(),
        !is_continuation_byte(b[0]),
        forall|j: int| 1 <= j < width_of_lead(b[0]) ==> is_continuation_byte(#[trigger] b[j]),
        valid_utf8(b.subrange(width_of_lead(b[0]), b.len() as int)),
        char_units(decode_first_scalar(b) as char) == units_of_byte(b[0]),
{
    let c = decode_first_scalar(b) as char;
    let x = c as u32;
    decode_utf8_first_scalar(b);
    char_is_scalar(c);
    assert(encode_scalar(x).len() == length_of_first_scalar(b));
}

/// Continuation bytes lead no code point, so counting up to `i` or up to the
/// next boundary gives the same.
pub proof fn lemma_units_ceil(bytes: Seq<u8>, i: int)
    requires
        0 <= i <= bytes.len(),
    ensures
        i <= ceil_boundary(bytes, i) <= bytes.len(),
        units_before(bytes, ceil_boundary(bytes, i)) == units_before(bytes, i),
        chars_before(bytes, ceil_boundary(bytes, i)) == chars_before(bytes, i),
        forall|j: int|
            i <= j < ceil_boundary(bytes, i) ==> is_continuation_byte(#[trigger] bytes[j]),
        ceil_boundary(bytes, i) < bytes.len() ==> !is_continuation_byte(
            bytes[ceil_boundary(bytes, i)],
        ),
    decreases bytes.len() - i,
{
    if i < bytes.len() && is_continuation_byte(bytes[i]) {
        lemma_units_ceil(bytes, i + 1);
    }
}

/// What `floor_boundary` finds.
pub proof fn lemma_floor(bytes: Seq<u8>, i: int)
    requires
        0 <= i <= bytes.len(),
    ensures
        0 <= floor_boundary(bytes, i) <= i,
        forall|j: int|
            floor_boundary(bytes, i) < j <= i && j < bytes.len() ==> is_continuation_byte(
                #[trigger] bytes[j],
            ),
        0 < floor_boundary(bytes, i) < bytes.len() ==> !is_continuation_byte(
            bytes[floor_boundary(bytes, i)],
        ),
    decreases i,
{
    if 0 < i < bytes.len() && is_continuation_byte(bytes[i]) {
        lemma_floor(bytes, i - 1);
    }
}

/// The counts look only at the bytes before `upto`.
pub proof fn lemma_units_local(a: Seq<u8>, b: Seq<u8>, upto: int)
    requires
        0 <= upto <= a.len(),
        upto <= b.len(),
        forall|j: int| 0 <= j < upto ==> a[j] == b[j],
    ensures
        units_before(a, upto) == units_before(b, upto),
        chars_before(a, upto) == chars_before(b, upto),
    decreases upto,
{
    if upto > 0 {
        lemma_units_local(a, b, upto - 1);
    }
}

/// The counts of a sequence are those of a prefix plus those of the rest.
pub proof fn lemma_units_split(bytes: Seq<u8>, i: int, j: int)
    requires
        0 <= i <= j <= bytes.len(),
    ensures
        units_before(bytes, j) == units_before(bytes, i) + units_before(
            bytes.subrange(i, bytes.len() as int),
            j - i,
        ),
        chars_before(bytes, j) == chars_before(bytes, i) + chars_before(
            bytes.subrange(i, bytes.len() as int),
            j - i,
        ),
    decreases j - i,
{
    if i < j {
        lemma_units_split(bytes, i, j - 1);
    }
}

/// One code point counts by its lead byte alone.
pub proof fn lemma_units_first_scalar(b: Seq<u8>)
    requires
        valid_utf8(b),
        b.len() > 0,
    ensures
        units_before(b, width_of_lead(b[0])) == units_of_byte(b[0]),
        chars_before(b, width_of_lead(b[0])) == 1,
{
    lemma_first_scalar_shape(b);
    reveal_with_fuel(units_before, 5);
    reveal_with_fuel(chars_before, 5);
}

/// Counting lead bytes agrees with decoding: over a whole valid sequence the
/// byte-level counts are the number of code points and their UTF-16 length.
pub proof fn lemma_units_decode(b: Seq<u8>)
    requires
        valid_utf8(b),
    ensures
        units_before(b, b.len() as int) == utf16_len(decode_utf8(b)),
        chars_before(b, b.len() as int) == decode_utf8(b).len(),
        units_before(b, b.len() as int) <= chars_before(b, b.len() as int) * 2,
        chars_before(b, b.len() as int) <= b.len(),
        units_before(b, b.len() as int) <= b.len(),
    decreases b.len(),
{
    if b.len() > 0 {
        let w = width_of_lead(b[0]);
        let rest = b.subrange(w, b.len() as int);
        lemma_first_scalar_shape(b);
        lemma_units_first_scalar(b);
        lemma_units_split(b, w, b.len() as int);
        lemma_units_decode(rest);
        assert(pop_first_scalar(b) == rest);
        assert(decode_utf8(b).drop_first() =~= decode_utf8(rest));
    }
}

/// In valid UTF-8 the code-point boundaries are the end of the sequence and
/// the offsets of the bytes that are no continuation bytes.
pub proof fn lemma_boundary_iff(b: Seq<u8>, i: int)
    requires
        valid_utf8(b),
    ensures
        is_char_boundary(b, i) <==> 0 <= i <= b.len() && (i < b.len() ==> !is_continuation_byte(
            b[i],
        )),
{
    if 0 <= i < b.len() {
        is_char_boundary_iff_not_is_continuation_byte(b, i);
    } else if i == b.len() {
        is_char_boundary_start_end_of_seq(b);
    } else if i < 0 {
    } else {
        lemma_beyond_is_no_boundary(b, i);
    }
}

proof fn lemma_beyond_is_no_boundary(b: Seq<u8>, i: int)
    requires
        valid_utf8(b),
        i > b.len(),
    ensures
        !is_char_boundary(b, i),
    decreases b.len(),
{
    if b.len() > 0 {
        lemma_first_scalar_shape(b);
        lemma_beyond_is_no_boundary(pop_first_scalar(b), i - length_of_first_scalar(b));
    }
}

/// `ceil_boundary` and `floor_boundary` land on boundaries, and no boundary
/// lies between `i` and either.
pub proof fn lemma_nearest_boundaries(b: Seq<u8>, i: int)
    requires
        valid_utf8(b),
        0 <= i <= b.len(),
    ensures
        is_char_boundary(b, ceil_boundary(b, i)),
        is_char_boundary(b, floor_boundary(b, i)),
        floor_boundary(b, i) <= i <= ceil_boundary(b, i) <= b.len(),
        forall|j: int| floor_boundary(b, i) < j < ceil_boundary(b, i) ==> !is_char_boundary(b, j),
        is_char_boundary(b, i) <==> ceil_boundary(b, i) == i,
        is_char_boundary(b, i) <==> floor_boundary(b, i) == i,
{
    lemma_units_ceil(b, i);
    lemma_floor(b, i);
    lemma_boundary_iff(b, ceil_boundary(b, i));
    lemma_boundary_iff(b, floor_boundary(b, i));
    lemma_boundary_iff(b, i);
    lemma_boundary_iff(b, 0);
    assert forall|j: int| floor_boundary(b, i) < j < ceil_boundary(b, i) implies !is_char_boundary(
        b,
        j,
    ) by {
        lemma_boundary_iff(b, j);
        assert(is_continuation_byte(b[j]));
    }
}

/// Up to a boundary, the byte-level counts are those of the decoded prefix.
pub proof fn lemma_prefix_units(b: Seq<u8>, i: int)
    requires
        valid_utf8(b),
        is_char_boundary(b, i),
    ensures
        0 <= i <= b.len(),
        valid_utf8(b.subrange(0, i)),
        units_before(b, i) == utf16_prefix(b, i),
        chars_before(b, i) == decode_utf8(b.subrange(0, i)).len(),
        chars_before(b, i) <= units_before(b, i) <= i,
{
    lemma_boundary_iff(b, i);
    valid_utf8_split(b, i);
    let p = b.subrange(0, i);
    lemma_units_decode(p);
    lemma_units_local(b, p, i);
    lemma_chars_le_units(b, i);
}

/// Each code point takes at least one UTF-16 code unit.
pub proof fn lemma_chars_le_units(b: Seq<u8>, i: int)
    ensures
        chars_before(b, i) <= units_before(b, i),
    decreases i,
{
    if i > 0 {
        lemma_chars_le_units(b, i - 1);
    }
}

/// From one boundary to the next: the lead byte says how far it is, and the
/// counts grow by that one code point.
pub proof fn lemma_step(b: Seq<u8>, pos: int)
    requires
        valid_utf8(b),
        is_char_boundary(b, pos),
        pos < b.len(),
    ensures
        0 <= pos,
        pos + width_of_lead(b[pos]) <= b.len(),
        is_char_boundary(b, pos + width_of_lead(b[pos])),
        ceil_boundary(b, pos + 1) == pos + width_of_lead(b[pos]),
        !is_continuation_byte(b[pos]),
        forall|j: int|
            pos < j < pos + width_of_lead(b[pos]) ==> is_continuation_byte(#[trigger] b[j]),
        units_before(b, pos + width_of_lead(b[pos])) == units_before(b, pos) + units_of_byte(
            b[pos],
        ),
        chars_before(b, pos + width_of_lead(b[pos])) == chars_before(b, pos) + 1,
{
    lemma_boundary_iff(b, pos);
    valid_utf8_split(b, pos);
    let rest = b.subrange(pos, b.len() as int);
    let w = width_of_lead(b[pos]);
    lemma_first_scalar_shape(rest);
    lemma_units_first_scalar(rest);
    lemma_units_split(b, pos, pos + w);
    assert forall|j: int| pos < j < pos + w implies is_continuation_byte(#[trigger] b[j]) by {
        assert(b[j] == rest[j - pos]);
    }
    let tail = rest.subrange(w, rest.len() as int);
    assert(pos + w < b.len() ==> !is_continuation_byte(b[pos + w])) by {
        if pos + w < b.len() {
            lemma_first_scalar_shape(tail);
            assert(tail[0] == b[pos + w]);
        }
    }
    lemma_boundary_iff(b, pos + w);
    lemma_ceil_skips(b, pos + 1, pos + w);
}

/// `ceil_boundary` passes over a run of continuation bytes.
pub proof fn lemma_ceil_skips(b: Seq<u8>, i: int, to: int)
    requires
        0 <= i <= to <= b.len(),
        forall|j: int| i <= j < to ==> is_continuation_byte(#[trigger] b[j]),
        to < b.len() ==> !is_continuation_byte(b[to]),
    ensures
        ceil_boundary(b, i) == to,
    decreases to - i,
{
    if i < to {
        lemma_ceil_skips(b, i + 1, to);
    }
}

/// A later offset has no earlier next boundary.
pub proof fn lemma_ceil_monotone(b: Seq<u8>, i: int, j: int)
    requires
        0 <= i <= j,
    ensures
        ceil_boundary(b, i) <= ceil_boundary(b, j),
    decreases b.len() - i,
{
    if i < b.len() && is_continuation_byte(b[i]) {
        if i < j {
            lemma_ceil_monotone(b, i + 1, j);
        }
    } else {
        lemma_ceil_at_least(b, j);
    }
}

/// The next boundary is not before the offset.
pub proof fn lemma_ceil_at_least(b: Seq<u8>, i: int)
    ensures
        i <= ceil_boundary(b, i),
    decreases b.len() - i,
{
    if 0 <= i < b.len() && is_continuation_byte(b[i]) {
        lemma_ceil_at_least(b, i + 1);
    }
}

/// No offset that is free of a continuation byte lies between `i` and its
/// next boundary.
pub proof fn lemma_ceil_least(b: Seq<u8>, i: int, x: int)
    requires
        0 <= i <= x,
        x < b.len() ==> !is_continuation_byte(b[x]),
    ensures
        ceil_boundary(b, i) <= x,
    decreases b.len() - i,
{
    if i < b.len() && is_continuation_byte(b[i]) {
        lemma_ceil_least(b, i + 1, x);
    }
}

/// An ASCII byte of valid UTF-8 is a code point of its own: boundaries lie
/// before and after it.
pub proof fn lemma_ascii_alone(b: Seq<u8>, i: int)
    requires
        valid_utf8(b),
        0 <= i < b.len(),
        b[i] < 0x80,
    ensures
        is_char_boundary(b, i),
        is_char_boundary(b, i + 1),
{
    lemma_boundary_iff(b, i);
    lemma_step(b, i);
}

/// A boundary of a sequence is a boundary of what follows an earlier
/// boundary, and the text between the two decodes on its own.
pub proof fn lemma_boundary_in_tail(b: Seq<u8>, from: int, i: int)
    requires
        valid_utf8(b),
        is_char_boundary(b, from),
        is_char_boundary(b, i),
        from <= i,
    ensures
        0 <= from <= i <= b.len(),
        valid_utf8(b.subrange(from, b.len() as int)),
        is_char_boundary(b.subrange(from, b.len() as int), i - from),
        b.subrange(from, b.len() as int).subrange(0, i - from) == b.subrange(from, i),
        valid_utf8(b.subrange(from, i)),
{
    lemma_boundary_iff(b, from);
    lemma_boundary_iff(b, i);
    valid_utf8_split(b, from);
    let tail = b.subrange(from, b.len() as int);
    lemma_boundary_iff(tail, i - from);
    if i < b.len() {
        assert(tail[i - from] == b[i]);
    }
    assert(tail.subrange(0, i - from) =~= b.subrange(from, i));
    valid_utf8_split(tail, i - from);
}

/// Whether `pat` stands in `hay` at byte `i`.
pub open spec fn occurs_at(hay: Seq<u8>, pat: Seq<u8>, i: int) -> bool {
    0 <= i && i + pat.len() <= hay.len() && hay.subrange(i, i + pat.len()) == pat
}

/// Where `pat` first stands in `hay` at or after byte `from`.
pub open spec fn first_occurrence(hay: Seq<u8>, pat: Seq<u8>, from: int) -> Option<int>
    decreases hay.len() - from + 1,
{
    if from < 0 || from + pat.len() > hay.len() {
        None
    } else if occurs_at(hay, pat, from) {
        Some(from)
    } else {
        first_occurrence(hay, pat, from + 1)
    }
}

/// Text that is not empty takes at least one byte.
pub proof fn lemma_encode_nonempty(chars: Seq<char>)
    requires
        chars.len() > 0,
    ensures
        encode_utf8(chars).len() > 0,
{
}

/// Where a text stands inside another, it starts and ends on code-point
/// boundaries of that other.
pub proof fn lemma_occurrence_boundaries(hay: Seq<u8>, pat: Seq<u8>, i: int)
    requires
        valid_utf8(hay),
        valid_utf8(pat),
        pat.len() > 0,
        occurs_at(hay, pat, i),
    ensures
        is_char_boundary(hay, i),
        is_char_boundary(hay, i + pat.len()),
{
    lemma_boundary_iff(pat, 0);
    lemma_boundary_iff(hay, i);
    assert(hay.subrange(i, i + pat.len())[0] == pat[0]);
    lemma_occurrence_walk(hay, pat, i, 0);
}

proof fn lemma_occurrence_walk(hay: Seq<u8>, pat: Seq<u8>, i: int, j: int)
    requires
        valid_utf8(hay),
        valid_utf8(pat),
        occurs_at(hay, pat, i),
        is_char_boundary(pat, j),
        is_char_boundary(hay, i + j),
    ensures
        is_char_boundary(hay, i + pat.len()),
    decreases pat.len() - j,
{
    lemma_boundary_iff(pat, j);
    if j < pat.len() {
        assert(hay.subrange(i, i + pat.len())[j] == pat[j]);
        lemma_step(pat, j);
        lemma_step(hay, i + j);
        lemma_occurrence_walk(hay, pat, i, j + width_of_lead(pat[j]));
    }
}

/// What `first_occurrence` finds is an occurrence, and none starts between
/// `from` and it.
pub proof fn lemma_first_occurrence(hay: Seq<u8>, pat: Seq<u8>, from: int)
    requires
        0 <= from,
    ensures
        match first_occurrence(hay, pat, from) {
            Some(i) => from <= i && occurs_at(hay, pat, i) && forall|j: int|
                from <= j < i ==> !occurs_at(hay, pat, j),
            None => forall|j: int| from <= j ==> !occurs_at(hay, pat, j),
        },
    decreases hay.len() - from + 1,
{
    if from + pat.len() <= hay.len() && !occurs_at(hay, pat, from) {
        lemma_first_occurrence(hay, pat, from + 1);
    }
}

/// More bytes start no fewer code points.
pub proof fn lemma_units_monotone(b: Seq<u8>, i: int, j: int)
    requires
        i <= j,
    ensures
        units_before(b, i) <= units_before(b, j),
        chars_before(b, i) <= chars_before(b, j),
    decreases j - i,
{
    if i < j {
        lemma_units_monotone(b, i, j - 1);
    }
}

} // verus!
