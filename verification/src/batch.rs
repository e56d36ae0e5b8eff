//! What a batch of byte offsets translates to.
//!
//! A batch is answered in ascending order in one walk over the text. An
//! offset on a code-point boundary gets the UTF-16 length of the text before
//! it. An offset inside a code point gets the UTF-16 offset of the next
//! boundary, and leaves a cache behind: the offsets that follow, up to the end
//! of the code point starting at that boundary, get the same answer.

use vstd::prelude::*;
use vstd::utf8::*;

use crate::encoding::{
    ceil_boundary, floor_boundary, lemma_boundary_iff, lemma_ceil_least, lemma_ceil_monotone,
    lemma_floor, lemma_nearest_boundaries, lemma_step, lemma_units_ceil, utf16_len, utf16_prefix,
};

verus! {

/// Each offset is below the next.
pub open spec fn ascending(qs: Seq<usize>) -> bool {
    forall|i: int, j: int| 0 <= i < j < qs.len() ==> qs[i] < qs[j]
}

/// Whether `cache`, a bound and an answer, answers offset `q`.
pub open spec fn covers(cache: Option<(int, nat)>, q: int) -> bool {
    cache matches Some(c) && q < c.0
}

/// What answering offset `q` leaves behind when the cache did not answer it:
/// nothing where `q` is a boundary or lies in the last code point; else the
/// end of the code point that starts at the next boundary, with the UTF-16
/// offset of that boundary.
pub open spec fn cache_left(bytes: Seq<u8>, q: int) -> Option<(int, nat)> {
    let hit = ceil_boundary(bytes, q);
    if q < hit < bytes.len() {
        Some((ceil_boundary(bytes, hit + 1), utf16_prefix(bytes, hit)))
    } else {
        None
    }
}

/// The cache in hand when the first `k` of the ascending offsets `qs` have
/// been answered.
pub open spec fn cache_after(bytes: Seq<u8>, qs: Seq<usize>, k: int) -> Option<(int, nat)>
    decreases k,
{
    if k <= 0 {
        None
    } else {
        let before = cache_after(bytes, qs, k - 1);
        if covers(before, qs[k - 1] as int) {
            before
        } else {
            cache_left(bytes, qs[k - 1] as int)
        }
    }
}

/// The UTF-16 offset that the batch `qs` gives for its `k`-th offset.
pub open spec fn answer(bytes: Seq<u8>, qs: Seq<usize>, k: int) -> nat {
    match cache_after(bytes, qs, k) {
        Some(cache) if qs[k] < cache.0 => cache.1,
        _ => utf16_prefix(bytes, ceil_boundary(bytes, qs[k] as int)),
    }
}

/// The offsets of `out`, in its order.
pub open spec fn offsets_of(out: Seq<(usize, usize)>) -> Seq<usize> {
    Seq::new(out.len(), |k: int| out[k].0)
}

/// `out` is the translation of the set `offsets` over `bytes`: each of the
/// offsets once, in ascending order, each with its answer.
pub open spec fn translates_set(
    bytes: Seq<u8>,
    offsets: Set<usize>,
    out: Seq<(usize, usize)>,
) -> bool {
    &&& ascending(offsets_of(out))
    &&& offsets_of(out).to_set() == offsets
    &&& forall|k: int|
        0 <= k < out.len() ==> (#[trigger] out[k]).1 == answer(bytes, offsets_of(out), k)
}

/// `out` is the translation of the offsets `indices` over `bytes`, in
/// whatever order and however often `indices` gives them.
pub open spec fn translates(
    bytes: Seq<u8>,
    indices: Seq<usize>,
    out: Seq<(usize, usize)>,
) -> bool {
    translates_set(bytes, indices.to_set(), out)
}

/// The translation of the set `offsets` over `bytes`.
pub open spec fn translation(bytes: Seq<u8>, offsets: Set<usize>) -> Seq<(usize, usize)> {
    choose|out: Seq<(usize, usize)>| translates_set(bytes, offsets, out)
}

/// What the translation `out` gives for `offset`, which is one of its
/// offsets.
pub open spec fn units_at(out: Seq<(usize, usize)>, offset: usize) -> usize {
    out[choose|k: int| 0 <= k < out.len() && out[k].0 == offset].1
}

/// The offsets lie in the text.
pub open spec fn in_text(bytes: Seq<u8>, qs: Seq<usize>) -> bool {
    forall|j: int| 0 <= j < qs.len() ==> qs[j] <= bytes.len()
}

/// The `k`-th offset is answered from the cache and lies inside the code
/// point at whose end the cache ends.
pub open spec fn held_back(bytes: Seq<u8>, qs: Seq<usize>, k: int) -> bool {
    cache_after(bytes, qs, k) matches Some(cache) && qs[k] < cache.0 && ceil_boundary(
        bytes,
        qs[k] as int,
    ) == cache.0
}

/// Which of the first `k` offsets left the cache that is in hand after them.
pub open spec fn cache_origin(bytes: Seq<u8>, qs: Seq<usize>, k: int) -> int
    decreases k,
{
    if k <= 0 {
        0
    } else if covers(cache_after(bytes, qs, k - 1), qs[k - 1] as int) {
        cache_origin(bytes, qs, k - 1)
    } else {
        k - 1
    }
}

/// A cache in hand was left by an earlier offset of the batch.
pub proof fn lemma_cache_origin(bytes: Seq<u8>, qs: Seq<usize>, k: int)
    requires
        0 <= k <= qs.len(),
    ensures
        cache_after(bytes, qs, k) is Some ==> {
            &&& 0 <= cache_origin(bytes, qs, k) < k
            &&& cache_after(bytes, qs, k) == cache_left(
                bytes,
                qs[cache_origin(bytes, qs, k)] as int,
            )
        },
    decreases k,
{
    if k > 0 {
        lemma_cache_origin(bytes, qs, k - 1);
    }
}

/// What a cache holds: the code point after the one that the offset lies in.
proof fn lemma_cache_left(bytes: Seq<u8>, q: int)
    requires
        valid_utf8(bytes),
        0 <= q <= bytes.len(),
        cache_left(bytes, q) is Some,
    ensures
        ({
            let hit = ceil_boundary(bytes, q);
            let cache = cache_left(bytes, q)->0;
            &&& q < hit < cache.0 <= bytes.len()
            &&& is_char_boundary(bytes, hit)
            &&& is_char_boundary(bytes, cache.0)
            &&& cache.1 == utf16_prefix(bytes, hit)
            &&& !is_continuation_byte(bytes[hit])
            &&& forall|j: int| hit < j < cache.0 ==> is_continuation_byte(#[trigger] bytes[j])
        }),
{
    let hit = ceil_boundary(bytes, q);
    lemma_nearest_boundaries(bytes, q);
    lemma_step(bytes, hit);
}

/// An offset on a code-point boundary is given the UTF-16 length of the text
/// before it, whatever else the batch holds.
pub proof fn lemma_answer_on_boundary(bytes: Seq<u8>, qs: Seq<usize>, k: int)
    requires
        valid_utf8(bytes),
        ascending(qs),
        in_text(bytes, qs),
        0 <= k < qs.len(),
        is_char_boundary(bytes, qs[k] as int),
    ensures
        answer(bytes, qs, k) == utf16_len(decode_utf8(bytes.subrange(0, qs[k] as int))),
        !held_back(bytes, qs, k),
{
    lemma_nearest_boundaries(bytes, qs[k] as int);
    lemma_answer_at_next_boundary(bytes, qs, k);
}

/// An offset that is not held back is given the UTF-16 offset of the first
/// boundary at or after it: for an offset inside a code point, of the end of
/// that code point.
pub proof fn lemma_answer_at_next_boundary(bytes: Seq<u8>, qs: Seq<usize>, k: int)
    requires
        valid_utf8(bytes),
        ascending(qs),
        in_text(bytes, qs),
        0 <= k < qs.len(),
        !held_back(bytes, qs, k),
    ensures
        answer(bytes, qs, k) == utf16_prefix(bytes, ceil_boundary(bytes, qs[k] as int)),
{
    let q = qs[k] as int;
    let cache = cache_after(bytes, qs, k);
    if covers(cache, q) {
        lemma_cache_origin(bytes, qs, k);
        let from = qs[cache_origin(bytes, qs, k)] as int;
        lemma_cache_left(bytes, from);
        let hit = ceil_boundary(bytes, from);
        lemma_ceil_monotone(bytes, from, q);
        lemma_units_ceil(bytes, q);
        if q <= hit {
            lemma_ceil_least(bytes, q, hit);
        } else {
            let until = cache.unwrap().0;
            lemma_boundary_iff(bytes, until);
            lemma_ceil_least(bytes, q, until);
            assert(ceil_boundary(bytes, q) == until);
        }
    }
}

/// An offset that is held back is given the UTF-16 offset of the start of
/// the code point that it lies in.
pub proof fn lemma_answer_held_back(bytes: Seq<u8>, qs: Seq<usize>, k: int)
    requires
        valid_utf8(bytes),
        ascending(qs),
        in_text(bytes, qs),
        0 <= k < qs.len(),
        held_back(bytes, qs, k),
    ensures
        !is_char_boundary(bytes, qs[k] as int),
        answer(bytes, qs, k) == utf16_prefix(bytes, floor_boundary(bytes, qs[k] as int)),
{
    let q = qs[k] as int;
    lemma_cache_origin(bytes, qs, k);
    let from = qs[cache_origin(bytes, qs, k)] as int;
    lemma_cache_left(bytes, from);
    let hit = ceil_boundary(bytes, from);
    lemma_nearest_boundaries(bytes, q);
    if q <= hit {
        lemma_ceil_least(bytes, q, hit);
    }
    lemma_floor(bytes, q);
    let low = floor_boundary(bytes, q);
    if low < hit {
        assert(is_continuation_byte(bytes[hit]));
    }
    if low > hit {
        assert(is_continuation_byte(bytes[low]));
    }
}

/// Two ascending sequences with the same elements are the same sequence.
pub proof fn lemma_ascending_unique(a: Seq<usize>, b: Seq<usize>)
    requires
        ascending(a),
        ascending(b),
        a.to_set() == b.to_set(),
    ensures
        a == b,
    decreases a.len(),
{
    if a.len() == 0 {
        if b.len() > 0 {
            assert(b.contains(b[0]));
            assert(b.to_set().contains(b[0]));
            assert(a.contains(b[0]));
        }
        assert(a =~= b);
    } else {
        assert(a.contains(a.last()));
        assert(a.to_set().contains(a.last()));
        assert(b.contains(a.last()));
        let i = choose|i: int| 0 <= i < b.len() && b[i] == a.last();
        assert(b.contains(b.last()));
        assert(b.to_set().contains(b.last()));
        assert(a.contains(b.last()));
        let j = choose|j: int| 0 <= j < a.len() && a[j] == b.last();
        assert(a.last() == b.last()) by {
            if j < a.len() - 1 {
                assert(a[j] < a[a.len() - 1]);
            }
            if i < b.len() - 1 {
                assert(b[i] < b[b.len() - 1]);
            }
        }
        let a0 = a.drop_last();
        let b0 = b.drop_last();
        assert forall|x: usize| a0.contains(x) <==> b0.contains(x) by {
            if a0.contains(x) {
                let p = choose|p: int| 0 <= p < a0.len() && a0[p] == x;
                assert(a[p] < a[a.len() - 1]);
                assert(a.contains(x));
                assert(a.to_set().contains(x));
                assert(b.contains(x));
                let q = choose|q: int| 0 <= q < b.len() && b[q] == x;
                assert(b0[q] == x);
            }
            if b0.contains(x) {
                let p = choose|p: int| 0 <= p < b0.len() && b0[p] == x;
                assert(b[p] < b[b.len() - 1]);
                assert(b.contains(x));
                assert(b.to_set().contains(x));
                assert(a.contains(x));
                let q = choose|q: int| 0 <= q < a.len() && a[q] == x;
                assert(a0[q] == x);
            }
        }
        assert(a0.to_set() =~= b0.to_set());
        assert(ascending(a0)) by {
            assert forall|p: int, q: int| 0 <= p < q < a0.len() implies a0[p] < a0[q] by {
                assert(a[p] < a[q]);
            }
        }
        assert(ascending(b0)) by {
            assert forall|p: int, q: int| 0 <= p < q < b0.len() implies b0[p] < b0[q] by {
                assert(b[p] < b[q]);
            }
        }
        lemma_ascending_unique(a0, b0);
        assert(a =~= a0.push(a.last()));
        assert(b =~= b0.push(b.last()));
    }
}

/// A set of offsets has one translation.
pub proof fn lemma_translation_unique(
    bytes: Seq<u8>,
    offsets: Set<usize>,
    out_first: Seq<(usize, usize)>,
    out_second: Seq<(usize, usize)>,
)
    requires
        translates_set(bytes, offsets, out_first),
        translates_set(bytes, offsets, out_second),
    ensures
        out_first == out_second,
        translation(bytes, offsets) == out_first,
{
    lemma_ascending_unique(offsets_of(out_first), offsets_of(out_second));
    assert(out_first.len() == offsets_of(out_first).len());
    assert(out_second.len() == offsets_of(out_second).len());
    assert forall|k: int| 0 <= k < out_first.len() implies out_first[k] == out_second[k] by {
        assert(offsets_of(out_first)[k] == out_first[k].0);
        assert(offsets_of(out_second)[k] == out_second[k].0);
    }
    assert(out_first =~= out_second);
    let chosen = translation(bytes, offsets);
    lemma_ascending_unique(offsets_of(out_first), offsets_of(chosen));
    assert(chosen.len() == offsets_of(chosen).len());
    assert forall|k: int| 0 <= k < out_first.len() implies out_first[k] == chosen[k] by {
        assert(offsets_of(out_first)[k] == out_first[k].0);
        assert(offsets_of(chosen)[k] == chosen[k].0);
    }
    assert(out_first =~= chosen);
}

/// The translation of a batch depends on the set of its offsets alone: not on
/// their order, nor on how often one is given. So translating twice gives the
/// same.
pub proof fn law_translation_of_set(
    bytes: Seq<u8>,
    first: Seq<usize>,
    second: Seq<usize>,
    out_first: Seq<(usize, usize)>,
    out_second: Seq<(usize, usize)>,
)
    requires
        first.to_set() == second.to_set(),
        translates(bytes, first, out_first),
        translates(bytes, second, out_second),
    ensures
        out_first == out_second,
{
    lemma_translation_unique(bytes, first.to_set(), out_first, out_second);
}

/// In a translation, each offset stands once, so what it is given is what
/// stands beside it.
pub proof fn lemma_units_at(out: Seq<(usize, usize)>, k: int)
    requires
        ascending(offsets_of(out)),
        0 <= k < out.len(),
    ensures
        units_at(out, out[k].0) == out[k].1,
{
    let found = choose|j: int| 0 <= j < out.len() && out[j].0 == out[k].0;
    assert(offsets_of(out)[found] == out[found].0);
    assert(offsets_of(out)[k] == out[k].0);
    if found < k {
        assert(offsets_of(out)[found] < offsets_of(out)[k]);
    }
    if k < found {
        assert(offsets_of(out)[k] < offsets_of(out)[found]);
    }
}

/// The offsets of a translation are those that were asked for.
proof fn lemma_translated_offsets(bytes: Seq<u8>, indices: Seq<usize>, out: Seq<(usize, usize)>)
    requires
        in_text(bytes, indices),
        translates(bytes, indices, out),
    ensures
        in_text(bytes, offsets_of(out)),
{
    let qs = offsets_of(out);
    assert forall|j: int| 0 <= j < qs.len() implies qs[j] <= bytes.len() by {
        assert(qs.contains(qs[j]));
        assert(qs.to_set().contains(qs[j]));
        assert(indices.contains(qs[j]));
    }
}

/// In the translation of any offsets, one that lies on a code-point boundary
/// is given the UTF-16 length of the text before it.
pub proof fn law_offset_on_boundary(
    bytes: Seq<u8>,
    indices: Seq<usize>,
    out: Seq<(usize, usize)>,
    k: int,
)
    requires
        valid_utf8(bytes),
        in_text(bytes, indices),
        translates(bytes, indices, out),
        0 <= k < out.len(),
        is_char_boundary(bytes, out[k].0 as int),
    ensures
        out[k].1 == utf16_len(decode_utf8(bytes.subrange(0, out[k].0 as int))),
        !held_back(bytes, offsets_of(out), k),
{
    lemma_translated_offsets(bytes, indices, out);
    lemma_answer_on_boundary(bytes, offsets_of(out), k);
}

/// In the translation of any offsets, one that lies inside a code point and
/// is not held back is given the UTF-16 offset of the end of that code point,
/// where the next begins.
pub proof fn law_offset_inside_code_point(
    bytes: Seq<u8>,
    indices: Seq<usize>,
    out: Seq<(usize, usize)>,
    k: int,
)
    requires
        valid_utf8(bytes),
        in_text(bytes, indices),
        translates(bytes, indices, out),
        0 <= k < out.len(),
        !held_back(bytes, offsets_of(out), k),
    ensures
        out[k].1 == utf16_len(
            decode_utf8(bytes.subrange(0, ceil_boundary(bytes, out[k].0 as int))),
        ),
{
    lemma_translated_offsets(bytes, indices, out);
    lemma_answer_at_next_boundary(bytes, offsets_of(out), k);
}

/// In the translation of any offsets, one that is held back lies inside a
/// code point and is given the UTF-16 offset of the start of that code point.
pub proof fn law_offset_held_back(
    bytes: Seq<u8>,
    indices: Seq<usize>,
    out: Seq<(usize, usize)>,
    k: int,
)
    requires
        valid_utf8(bytes),
        in_text(bytes, indices),
        translates(bytes, indices, out),
        0 <= k < out.len(),
        held_back(bytes, offsets_of(out), k),
    ensures
        !is_char_boundary(bytes, out[k].0 as int),
        out[k].1 == utf16_len(
            decode_utf8(bytes.subrange(0, floor_boundary(bytes, out[k].0 as int))),
        ),
{
    lemma_translated_offsets(bytes, indices, out);
    lemma_answer_held_back(bytes, offsets_of(out), k);
}

/// Asked alone, an offset is given what a batch gives it, unless the batch
/// holds it back. Batching changes no other answer.
pub proof fn law_batch_as_single(
    bytes: Seq<u8>,
    indices: Seq<usize>,
    out: Seq<(usize, usize)>,
    k: int,
    alone: Seq<(usize, usize)>,
)
    requires
        valid_utf8(bytes),
        in_text(bytes, indices),
        translates(bytes, indices, out),
        0 <= k < out.len(),
        !held_back(bytes, offsets_of(out), k),
        translates(bytes, seq![out[k].0], alone),
    ensures
        alone == seq![out[k]],
{
    lemma_translated_offsets(bytes, indices, out);
    lemma_answer_at_next_boundary(bytes, offsets_of(out), k);
    let single = seq![out[k]];
    assert(offsets_of(single) =~= seq![out[k].0]);
    assert(ascending(offsets_of(single)));
    assert(single[0].1 == answer(bytes, offsets_of(single), 0));
    lemma_translation_unique(bytes, seq![out[k].0].to_set(), alone, single);
}

} // verus!
