//! Index translation and diagnostics for running byte-oriented regular
//! expressions over UTF-8 text on behalf of a UTF-16 host.

pub mod batch;
pub mod encoding;
pub mod engine;
pub mod error;
pub mod flags;
pub mod lexer;
pub mod std_ext;
pub mod strops;
pub mod syntax;

use std::borrow::Cow;

use regex::bytes::Regex;
use vstd::prelude::*;
use vstd::string::{StringExecFns, StringSliceAdditionalSpecFns};
use vstd::utf8::*;

use crate::batch::{
    ascending, in_text, lemma_units_at, offsets_of, translates, translation, units_at,
};
use crate::engine::{
    all_matches, compile, expand_each, expansions, find, first_of, group_names, matcher_compiles,
    matcher_objects, replace_all, replace_first, replaced_all, replaced_first,
};
use crate::error::{build_failure, syntax_failure, ErrorView, Failure, FailureView, UnescapeView};
use crate::flags::{flags_of, flags_valid, Flags};
use crate::lexer::lexed_str;
use crate::std_ext::{lossy_decoded, lossy_text};
use crate::strops::{
    lossy_slice, name_view, str_from_utf8_rep, unescape, unescape_outcome,
    utf16_index_bytes_slice, StrType,
};
use crate::syntax::{check_syntax, parser_says, syntax_passes};

verus! {

/// Representation of a single capture group
#[derive(Debug)]
pub struct CapSer {
    /// Optional name of the capture group
    pub group_name: Option<String>,
    /// Index of the match within all matches
    pub match_num: usize,
    /// Index of the group within this single match
    pub group_num: usize,
    /// Whether or not an optional group is found within the match
    pub is_participating: bool,
    /// Whether or not this capture group represents the entire match (this will
    /// be the first capture group within its list)
    pub entire_match: bool,
    /* below fields only exist if is_participating */
    /// Content of the capture group
    pub content: Option<String>,
    /// Start index in the host's string
    pub start_utf16: Option<usize>,
    /// Start index as a UTF-8 array
    pub start: Option<usize>,
    /// End index in the host's string
    pub end_utf16: Option<usize>,
    /// End index as a UTF-8 array
    pub end: Option<usize>,
}

/// What a `CapSer` says.
pub struct CapSerView {
    pub group_name: Option<Seq<char>>,
    pub match_num: usize,
    pub group_num: usize,
    pub is_participating: bool,
    pub entire_match: bool,
    pub content: Option<Seq<char>>,
    pub start_utf16: Option<usize>,
    pub start: Option<usize>,
    pub end_utf16: Option<usize>,
    pub end: Option<usize>,
}

/// An optional text, as what it says.
pub open spec fn text_view(text: Option<String>) -> Option<Seq<char>> {
    match text {
        Some(t) => Some(t@),
        None => None,
    }
}

impl View for CapSer {
    type V = CapSerView;

    open spec fn view(&self) -> CapSerView {
        CapSerView {
            group_name: text_view(self.group_name),
            match_num: self.match_num,
            group_num: self.group_num,
            is_participating: self.is_participating,
            entire_match: self.entire_match,
            content: text_view(self.content),
            start_utf16: self.start_utf16,
            start: self.start,
            end_utf16: self.end_utf16,
            end: self.end,
        }
    }
}

/// The record of group `group_num` of match `match_num` for a group that
/// took no part in the match.
pub open spec fn absent_record(
    group_name: Option<Seq<char>>,
    match_num: usize,
    group_num: usize,
) -> CapSerView {
    CapSerView {
        group_name,
        match_num,
        group_num,
        is_participating: false,
        entire_match: false,
        content: None,
        start_utf16: None,
        start: None,
        end_utf16: None,
        end: None,
    }
}

impl Default for CapSer {
    fn default() -> (cap: Self)
        ensures
            cap@ == absent_record(None, 0, 0),
    {
        CapSer {
            group_name: None,
            match_num: 0,
            group_num: 0,
            is_participating: false,
            entire_match: false,
            content: None,
            start_utf16: None,
            start: None,
            end_utf16: None,
            end: None,
        }
    }
}

/// Representation of all matches in some text
#[derive(Debug)]
pub struct MatchSer {
    /// List of all matches. The inner vector is a list of all groups.
    pub matches: Vec<Vec<CapSer>>,
}

/// The records of the matches `rows`.
pub open spec fn rows_view(rows: Seq<Vec<CapSer>>) -> Seq<Seq<CapSerView>> {
    Seq::new(rows.len(), |i: int| Seq::new(rows[i]@.len(), |j: int| rows[i]@[j]@))
}

impl View for MatchSer {
    type V = Seq<Seq<CapSerView>>;

    open spec fn view(&self) -> Seq<Seq<CapSerView>> {
        rows_view(self.matches@)
    }
}

impl Default for MatchSer {
    fn default() -> (found: Self)
        ensures
            found@ == Seq::<Seq<CapSerView>>::empty(),
    {
        let found = MatchSer { matches: Vec::new() };
        proof {
            assert(found@ =~= Seq::<Seq<CapSerView>>::empty());
        }
        found
    }
}

/// The record `cap` with its UTF-16 offsets taken from the translation
/// `out`: for the start and for the end, where it has them.
pub open spec fn with_units(cap: CapSerView, out: Seq<(usize, usize)>) -> CapSerView {
    CapSerView {
        start_utf16: match cap.start {
            Some(start) => Some(units_at(out, start)),
            None => cap.start_utf16,
        },
        end_utf16: match cap.end {
            Some(end) => Some(units_at(out, end)),
            None => cap.end_utf16,
        },
        ..cap
    }
}

/// Whether `indices` holds every offset that the records give.
pub open spec fn offsets_listed(rows: Seq<Seq<CapSerView>>, indices: Seq<usize>) -> bool {
    forall|i: int, j: int|
        0 <= i < rows.len() && 0 <= j < rows[i].len() ==> {
            &&& (#[trigger] rows[i][j]).start matches Some(start) ==> indices.contains(start)
            &&& rows[i][j].end matches Some(end) ==> indices.contains(end)
        }
}

/// An optional text once more.
fn clone_text(text: &Option<String>) -> (copy: Option<String>)
    ensures
        copy == *text,
{
    match text {
        Some(t) => Some(t.clone()),
        None => None,
    }
}

/// What the translation `out` gives for `offset`, found by binary search.
fn find_units(out: &Vec<(usize, usize)>, offset: usize) -> (units: usize)
    requires
        ascending(offsets_of(out@)),
        offsets_of(out@).contains(offset),
    ensures
        units == units_at(out@, offset),
{
    let ghost at = choose|k: int| 0 <= k < out@.len() && offsets_of(out@)[k] == offset;
    let mut low: usize = 0;
    let mut high: usize = out.len() - 1;
    while low < high
        invariant
            ascending(offsets_of(out@)),
            0 <= at < out@.len(),
            out@[at].0 == offset,
            low <= at <= high < out@.len(),
        decreases high - low,
    {
        let mid = low + (high - low) / 2;
        proof {
            assert(offsets_of(out@)[mid as int] == out@[mid as int].0);
            assert(offsets_of(out@)[at] == out@[at].0);
        }
        if out[mid].0 < offset {
            low = mid + 1;
        } else {
            high = mid;
        }
    }
    proof {
        lemma_units_at(out@, low as int);
    }
    out[low].1
}

impl MatchSer {
    /// For all matches, set indices to UTF-16 for the given text. `indices`
    /// holds every offset of the matches, and none beyond the text.
    pub fn update_indices_utf16(&mut self, text: &str, indices: Vec<usize>)
        requires
            in_text(text.spec_bytes(), indices@),
            offsets_listed(old(self)@, indices@),
        ensures
            final(self)@ == Seq::new(
                old(self)@.len(),
                |i: int|
                    Seq::new(
                        old(self)@[i].len(),
                        |j: int|
                            with_units(
                                old(self)@[i][j],
                                translation(text.spec_bytes(), indices@.to_set()),
                            ),
                    ),
            ),
    {
        let ghost listed = indices@;
        let ghost before = self@;
        // Get our indices from the text
        let matched_indices = utf16_index_bytes_slice(text, indices);
        let mut i: usize = 0;
        while i < self.matches.len()
            invariant
                offsets_listed(before, listed),
                translates(text.spec_bytes(), listed, matched_indices@),
                i <= self.matches@.len(),
                self@.len() == before.len(),
                forall|a: int|
                    0 <= a < before.len() ==> (#[trigger] self@[a]).len() == before[a].len(),
                forall|a: int, b: int|
                    0 <= a < before.len() && 0 <= b < before[a].len() ==> #[trigger] self@[a][b]
                        == if a < i {
                        with_units(before[a][b], matched_indices@)
                    } else {
                        before[a][b]
                    },
            decreases self.matches@.len() - i,
        {
            let mut j: usize = 0;
            while j < self.matches[i].len()
                invariant
                    offsets_listed(before, listed),
                    translates(text.spec_bytes(), listed, matched_indices@),
                    i < self.matches@.len(),
                    j <= self.matches@[i as int]@.len(),
                    self@.len() == before.len(),
                    forall|a: int|
                        0 <= a < before.len() ==> (#[trigger] self@[a]).len() == before[a].len(),
                    forall|a: int, b: int|
                        0 <= a < before.len() && 0 <= b < before[a].len() ==> #[trigger] self@[a][b]
                            == if a < i || (a == i && b < j) {
                            with_units(before[a][b], matched_indices@)
                        } else {
                            before[a][b]
                        },
                decreases self.matches@[i as int]@.len() - j,
            {
                let ghost rows = self@;
                proof {
                    assert(rows[i as int].len() == before[i as int].len());
                    assert(rows[i as int][j as int] == before[i as int][j as int]);
                    assert(offsets_of(matched_indices@).to_set() == listed.to_set());
                    if let Some(start) = before[i as int][j as int].start {
                        assert(listed.to_set().contains(start));
                    }
                    if let Some(end) = before[i as int][j as int].end {
                        assert(listed.to_set().contains(end));
                    }
                }
                if let Some(start) = self.matches[i][j].start {
                    self.matches[i][j].start_utf16 = Some(find_units(&matched_indices, start));
                }
                if let Some(end) = self.matches[i][j].end {
                    self.matches[i][j].end_utf16 = Some(find_units(&matched_indices, end));
                }
                proof {
                    assert(self@.len() == before.len());
                    assert forall|a: int| 0 <= a < before.len() implies (#[trigger] self@[a]).len()
                        == before[a].len() by {
                        assert(rows[a].len() == before[a].len());
                    }
                    assert forall|a: int, b: int|
                        0 <= a < before.len() && 0 <= b < before[a].len() implies (
                    #[trigger] self@[a][b]) == if a < i || (a == i && b < j + 1) {
                        with_units(before[a][b], matched_indices@)
                    } else {
                        before[a][b]
                    } by {
                        assert(rows[a].len() == before[a].len());
                        if a == i && b == j {
                        } else {
                            assert(self@[a][b] == rows[a][b]);
                        }
                    }
                }
                j = j + 1;
            }
            i = i + 1;
        }
        proof {
            assert(self@ =~~= Seq::new(
                before.len(),
                |i: int|
                    Seq::new(
                        before[i].len(),
                        |j: int| with_units(before[i][j], matched_indices@),
                    ),
            ));
        }
    }
}

/// Which bytes of the text a group took in a match, first and one past the
/// last; `None` for a group that took no part.
pub type Taken = Option<(usize, usize)>;

/// The offsets that the first `m` groups of a match give.
pub open spec fn row_offsets(row: Seq<Taken>, m: int) -> Set<usize>
    decreases m,
{
    if m <= 0 {
        Set::empty()
    } else {
        match row[m - 1] {
            Some(taken) => row_offsets(row, m - 1).insert(taken.0).insert(taken.1),
            None => row_offsets(row, m - 1),
        }
    }
}

/// The offsets that the first `n` matches give.
pub open spec fn range_offsets(ranges: Seq<Seq<Taken>>, n: int) -> Set<usize>
    decreases n,
{
    if n <= 0 {
        Set::empty()
    } else {
        range_offsets(ranges, n - 1).union(row_offsets(ranges[n - 1], ranges[n - 1].len() as int))
    }
}

/// Whether what the groups took lies in the text.
pub open spec fn ranges_fit(bytes: Seq<u8>, ranges: Seq<Seq<Taken>>) -> bool {
    forall|i: int, j: int|
        0 <= i < ranges.len() && 0 <= j < ranges[i].len() ==> (#[trigger] ranges[i][j] matches Some(
            taken,
        ) ==> taken.0 <= taken.1 <= bytes.len())
}

/// The record of group `group_num` of match `match_num`, which took the
/// bytes from `start` up to `end` of the text: what these bytes read as, and
/// both offsets in bytes and, from the translation `out`, in UTF-16.
pub open spec fn present_record(
    bytes: Seq<u8>,
    group_name: Option<Seq<char>>,
    match_num: usize,
    group_num: usize,
    start: usize,
    end: usize,
    out: Seq<(usize, usize)>,
) -> CapSerView {
    CapSerView {
        group_name,
        match_num,
        group_num,
        is_participating: true,
        entire_match: group_num == 0,
        content: Some(lossy_slice(bytes, start as int, end as int)),
        start_utf16: Some(units_at(out, start)),
        start: Some(start),
        end_utf16: Some(units_at(out, end)),
        end: Some(end),
    }
}

/// The record of group `j` of match `i`, given the names of the groups and
/// what each group took in each match. All offsets of all matches are
/// translated as one batch.
pub open spec fn record(
    bytes: Seq<u8>,
    names: Seq<Option<Seq<char>>>,
    ranges: Seq<Seq<Taken>>,
    i: int,
    j: int,
) -> CapSerView {
    match ranges[i][j] {
        Some(taken) => present_record(
            bytes,
            names[j],
            i as usize,
            j as usize,
            taken.0,
            taken.1,
            translation(bytes, range_offsets(ranges, ranges.len() as int)),
        ),
        None => absent_record(names[j], i as usize, j as usize),
    }
}

/// The records of all matches: one row for each match, one record in it for
/// each group.
pub open spec fn match_records(
    bytes: Seq<u8>,
    names: Seq<Option<Seq<char>>>,
    ranges: Seq<Seq<Taken>>,
) -> Seq<Seq<CapSerView>> {
    Seq::new(
        ranges.len(),
        |i: int| Seq::new(names.len(), |j: int| record(bytes, names, ranges, i, j)),
    )
}

/// The record of group `j` of match `i` before its offsets are translated.
pub open spec fn unit_less(
    bytes: Seq<u8>,
    names: Seq<Option<Seq<char>>>,
    ranges: Seq<Seq<Taken>>,
    i: int,
    j: int,
) -> CapSerView {
    CapSerView { start_utf16: None, end_utf16: None, ..record(bytes, names, ranges, i, j) }
}

/// In the records of matches, a group that took no part in a match has
/// nothing but its name and its numbers; one that took part has its content
/// and its offsets, in bytes not running backwards; and only a first group
/// stands for the entire match.
pub proof fn law_record_fields(
    bytes: Seq<u8>,
    names: Seq<Option<Seq<char>>>,
    ranges: Seq<Seq<Taken>>,
    i: int,
    j: int,
)
    requires
        ranges_fit(bytes, ranges),
        0 <= i < ranges.len() <= usize::MAX,
        0 <= j < names.len() <= usize::MAX,
        names.len() == ranges[i].len(),
    ensures
        ({
            let cap = match_records(bytes, names, ranges)[i][j];
            &&& cap.match_num == i && cap.group_num == j
            &&& cap.is_participating == (cap.start is Some)
            &&& cap.is_participating == (cap.end is Some)
            &&& cap.is_participating == (cap.content is Some)
            &&& cap.is_participating == (cap.start_utf16 is Some)
            &&& cap.is_participating == (cap.end_utf16 is Some)
            &&& cap.is_participating ==> cap.start.unwrap() <= cap.end.unwrap() <= bytes.len()
            &&& cap.entire_match == (cap.is_participating && j == 0)
        }),
{
    assert(ranges[i][j] matches Some(taken) ==> taken.0 <= taken.1 <= bytes.len());
}

/// The names of the groups, as text.
pub open spec fn names_view(names: Seq<Option<String>>) -> Seq<Option<Seq<char>>> {
    Seq::new(names.len(), |j: int| text_view(names[j]))
}

/// Byte strings, as sequences.
pub open spec fn parts_view(parts: Seq<Vec<u8>>) -> Seq<Seq<u8>> {
    Seq::new(parts.len(), |i: int| parts[i]@)
}

/// The byte strings `parts`, one after the other.
pub open spec fn joined(parts: Seq<Seq<u8>>) -> Seq<u8>
    decreases parts.len(),
{
    if parts.len() == 0 {
        Seq::empty()
    } else {
        joined(parts.drop_last()) + parts.last()
    }
}

/// What each group took in each match, as sequences.
pub open spec fn ranges_view(ranges: Seq<Vec<Taken>>) -> Seq<Seq<Taken>> {
    Seq::new(ranges.len(), |i: int| ranges[i]@)
}

/// A group's offsets are among those of its match.
proof fn lemma_row_offsets(row: Seq<Taken>, m: int, j: int)
    requires
        0 <= j < m <= row.len(),
    ensures
        row[j] matches Some(taken) ==> row_offsets(row, m).contains(taken.0) && row_offsets(
            row,
            m,
        ).contains(taken.1),
    decreases m,
{
    if j < m - 1 {
        lemma_row_offsets(row, m - 1, j);
    }
}

/// A match's offsets are among those of all matches.
proof fn lemma_range_offsets(ranges: Seq<Seq<Taken>>, n: int, i: int)
    requires
        0 <= i < n <= ranges.len(),
    ensures
        row_offsets(ranges[i], ranges[i].len() as int).subset_of(range_offsets(ranges, n)),
    decreases n,
{
    if i < n - 1 {
        lemma_range_offsets(ranges, n - 1, i);
    }
}

/// The text of a borrowed or owned string, owned.
fn into_string(text: Cow<'_, str>) -> (owned: String)
    ensures
        owned@ == text@,
{
    match text {
        Cow::Borrowed(borrowed) => String::from_str(borrowed),
        Cow::Owned(owned) => owned,
    }
}

/// Build the records of all matches from the names of the groups and what
/// each group took in each match, which lies in the text.
pub fn collect_matches(text: &str, names: &Vec<Option<String>>, ranges: &Vec<Vec<Taken>>) -> (found:
    MatchSer)
    requires
        forall|i: int| 0 <= i < ranges@.len() ==> (#[trigger] ranges@[i])@.len() == names@.len(),
        ranges_fit(text.spec_bytes(), ranges_view(ranges@)),
    ensures
        found@ == match_records(text.spec_bytes(), names_view(names@), ranges_view(ranges@)),
{
    let ghost bytes = text.spec_bytes();
    let ghost taken = ranges_view(ranges@);
    let mut matches: Vec<Vec<CapSer>> = Vec::with_capacity(ranges.len());
    // We'll use this to convert our UTF-8 indices to UTF-16 all at once
    let mut all_indices: Vec<usize> = Vec::new();
    let mut match_idx: usize = 0;
    proof {
        assert(all_indices@.to_set() =~= range_offsets(taken, 0));
    }
    // Each item in this loop is a query match.
    while match_idx < ranges.len()
        invariant
            bytes == text.spec_bytes(),
            taken == ranges_view(ranges@),
            ranges_fit(bytes, taken),
            forall|i: int|
                0 <= i < ranges@.len() ==> (#[trigger] ranges@[i])@.len() == names@.len(),
            match_idx <= ranges@.len(),
            matches@.len() == match_idx,
            all_indices@.to_set() == range_offsets(taken, match_idx as int),
            in_text(bytes, all_indices@),
            forall|a: int| 0 <= a < match_idx ==> (#[trigger] matches@[a])@.len() == names@.len(),
            forall|a: int, b: int|
                0 <= a < match_idx && 0 <= b < names@.len() ==> (#[trigger] matches@[a]@[b])@
                    == unit_less(bytes, names_view(names@), taken, a, b),
        decreases ranges@.len() - match_idx,
    {
        let row = &ranges[match_idx];
        let mut match_: Vec<CapSer> = Vec::with_capacity(names.len());
        let mut i: usize = 0;
        proof {
            assert(taken[match_idx as int] == row@);
            assert(all_indices@.to_set() =~= range_offsets(taken, match_idx as int).union(
                row_offsets(row@, 0),
            ));
        }
        // For each capture name, get the correct capture and turn it into a
        // record. Collect it into a vector.
        while i < names.len()
            invariant
                bytes == text.spec_bytes(),
                taken == ranges_view(ranges@),
                    ranges_fit(bytes, taken),
                match_idx < ranges@.len(),
                *row == ranges@[match_idx as int],
                row@.len() == names@.len(),
                i <= names@.len(),
                match_@.len() == i,
                all_indices@.to_set() == range_offsets(taken, match_idx as int).union(
                    row_offsets(row@, i as int),
                ),
                in_text(bytes, all_indices@),
                forall|b: int|
                    0 <= b < i ==> (#[trigger] match_@[b])@ == unit_less(
                        bytes,
                        names_view(names@),
                        taken,
                        match_idx as int,
                        b,
                    ),
            decreases names@.len() - i,
        {
            proof {
                assert(taken[match_idx as int][i as int] == row@[i as int]);
            }
            // Start with a default capture representation
            let mut to_push = CapSer {
                group_name: clone_text(&names[i]),
                match_num: match_idx,
                group_num: i,
                is_participating: false,
                entire_match: false,
                content: None,
                start_utf16: None,
                start: None,
                end_utf16: None,
                end: None,
            };
            // If our capture exists, update info for it
            if let Some((start, end)) = row[i] {
                let content = str_from_utf8_rep(text, start, end);
                let ghost before = all_indices@;
                all_indices.push(start);
                proof {
                    before.lemma_push_to_set_commute(start);
                }
                let ghost between = all_indices@;
                all_indices.push(end);
                proof {
                    between.lemma_push_to_set_commute(end);
                    assert(all_indices@.to_set() =~= range_offsets(taken, match_idx as int).union(
                        row_offsets(row@, i + 1),
                    ));
                }
                to_push.is_participating = true;
                to_push.entire_match = i == 0;
                to_push.content = Some(into_string(content));
                to_push.start = Some(start);
                to_push.end = Some(end);
            }
            match_.push(to_push);
            i = i + 1;
        }
        matches.push(match_);
        match_idx = match_idx + 1;
    }
    let mut res = MatchSer { matches };
    proof {
        let rows = res@;
        assert forall|i: int, j: int| 0 <= i < rows.len() && 0 <= j < rows[i].len() implies {
            &&& (#[trigger] rows[i][j]).start matches Some(start) ==> all_indices@.contains(start)
            &&& rows[i][j].end matches Some(end) ==> all_indices@.contains(end)
        } by {
            assert(rows[i][j] == res.matches@[i]@[j]@);
            lemma_row_offsets(taken[i], taken[i].len() as int, j);
            lemma_range_offsets(taken, taken.len() as int, i);
            if let Some(t) = taken[i][j] {
                assert(all_indices@.to_set().contains(t.0));
                assert(all_indices@.to_set().contains(t.1));
            }
        }
    }
    // We need to add valid UTF-16 indices, for the host's highlighting
    let ghost before = res@;
    res.update_indices_utf16(text, all_indices);
    proof {
        assert(res@ =~~= match_records(bytes, names_view(names@), taken));
    }
    res
}

/// Result of a replacement. The purpose of this struct is just to wrap the
/// string within a "result" key for the host.
#[derive(Debug)]
pub struct ReplacdSer {
    pub result: String,
}

impl View for ReplacdSer {
    type V = Seq<char>;

    open spec fn view(&self) -> Seq<char> {
        self.result@
    }
}

impl Default for ReplacdSer {
    fn default() -> (replaced: Self)
        ensures
            replaced@ == Seq::<char>::empty(),
    {
        ReplacdSer { result: String::new() }
    }
}

/// What a replacement gives the host.
#[derive(Debug)]
pub enum Replacement {
    /// There was no pattern: a text that goes to the host as it is, without
    /// a "result" key around it.
    Plain(String),
    /// What the matcher made of the text.
    Record(ReplacdSer),
}

/// What a `Replacement` says.
pub enum ReplacementView {
    Plain(Seq<char>),
    Record(Seq<char>),
}

impl View for Replacement {
    type V = ReplacementView;

    open spec fn view(&self) -> ReplacementView {
        match self {
            Replacement::Plain(text) => ReplacementView::Plain(text@),
            Replacement::Record(replaced) => ReplacementView::Record(replaced@),
        }
    }
}

/// Our regex state with compiled regex and global flag
#[derive(Debug)]
pub struct State {
    /// The pattern, compiled under the flags
    pub re: Regex,
    pub global: bool,
    /// The pattern that was compiled
    pub pattern: String,
    /// The flags that it was compiled under
    pub flags: Flags,
}

/// Whether a pattern gives a matcher: it is not empty, the syntax parser
/// passes it, and the matcher compiles it.
pub open spec fn pattern_passes(pattern: Seq<char>, flags: Flags) -> bool {
    pattern.len() > 0 && syntax_passes(pattern, flags) && matcher_compiles(pattern, flags)
}

/// Why `pattern` gives no matcher under `flags`, if it is not empty and
/// gives none: what the syntax parser says of it; or, where the parser
/// passes it, what the matcher objects.
pub open spec fn refusal(pattern: Seq<char>, flags: Flags) -> Option<FailureView> {
    if pattern.len() == 0 {
        None
    } else if !syntax_passes(pattern, flags) {
        Some(syntax_failure(pattern, flags, parser_says(pattern, flags)))
    } else if !matcher_compiles(pattern, flags) {
        Some(build_failure(matcher_objects(pattern, flags).0, matcher_objects(pattern, flags).1))
    } else {
        None
    }
}

/// How many matches are looked at: all with `g`, else the first.
pub open spec fn limit_of(flags: Flags) -> usize {
    if flags.global {
        usize::MAX
    } else {
        1
    }
}

/// Process specified flags to create a regex query. Acceptable flags characters
/// are `gimsUux`. Also validates the regex string.
///
/// If the regex expression is empty, returns `None` for the state, allowing for
/// short circuiting
pub fn re_build(reg_exp: &str, flags: &str) -> (out: Result<Option<State>, Failure>)
    requires
        reg_exp@.len() > 0 ==> flags_valid(flags.spec_bytes()),
    ensures
        match out {
            Ok(None) => reg_exp@.len() == 0,
            Ok(Some(state)) => {
                &&& pattern_passes(reg_exp@, flags_of(flags.spec_bytes()))
                &&& state.global == flags_of(flags.spec_bytes()).global
                &&& state.pattern@ == reg_exp@
                &&& state.flags == flags_of(flags.spec_bytes())
            },
            Err(failure) => refusal(reg_exp@, flags_of(flags.spec_bytes())) == Some(failure@),
        },
        out matches Err(Failure::Reported(err)) ==> err@.of_pattern(),
{
    // We keep a parser and builder separate; parser gives us nice errors,
    // builder creates the regex we need. All flags apply to both.
    let set = match check_pattern(reg_exp, flags) {
        Err(failure) => {
            return Err(failure);
        },
        Ok(None) => {
            return Ok(None);
        },
        Ok(Some(set)) => set,
    };
    // Build our pattern
    match compile(reg_exp, &set) {
        Ok(re) => Ok(
            Some(State { re, global: set.global, pattern: String::from_str(reg_exp), flags: set }),
        ),
        Err((kind, message)) => Err(Failure::from_build(kind, message)),
    }
}

/// Read the flags and have the parser look at the pattern: `None` for an
/// empty pattern, of which nothing is looked at; else the flags, or what the
/// parser says.
fn check_pattern(reg_exp: &str, flags: &str) -> (out: Result<Option<Flags>, Failure>)
    requires
        reg_exp@.len() > 0 ==> flags_valid(flags.spec_bytes()),
    ensures
        match out {
            Ok(None) => reg_exp@.len() == 0,
            Ok(Some(set)) => reg_exp@.len() > 0 && set == flags_of(flags.spec_bytes())
                && syntax_passes(reg_exp@, set),
            Err(failure) => !pattern_passes(reg_exp@, flags_of(flags.spec_bytes())) && refusal(
                reg_exp@,
                flags_of(flags.spec_bytes()),
            ) == Some(failure@),
        },
        out matches Err(Failure::Reported(err)) ==> err@.of_pattern(),
{
    if reg_exp.is_empty() {
        return Ok(None);
    }
    let set = Flags::parse(flags).unwrap();
    // Create nice errors
    match check_syntax(reg_exp, &set) {
        Err(said) => Err(Failure::from_syntax(reg_exp, &set, said)),
        Ok(_) => Ok(Some(set)),
    }
}

/// What the matcher objects to a pattern that it does not compile.
fn objection(reg_exp: &str, set: &Flags) -> (failure: Failure)
    requires
        !matcher_compiles(reg_exp@, *set),
    ensures
        failure@ == build_failure(
            matcher_objects(reg_exp@, *set).0,
            matcher_objects(reg_exp@, *set).1,
        ),
        failure matches Failure::Reported(err) ==> err@.of_pattern(),
{
    match compile(reg_exp, set) {
        Err((kind, message)) => Failure::from_build(kind, message),
        // it does not compile now what it did not a moment ago
        Ok(_) => Failure::Upstream,
    }
}

/// Whether each match has a first record, and that one is of the whole
/// match.
pub open spec fn whole_matches_first(rows: Seq<Seq<CapSerView>>) -> bool {
    forall|i: int| 0 <= i < rows.len() ==> (#[trigger] rows[i]).len() > 0 && rows[i][0].entire_match
}

/// The records of the matches of `pattern` in `text`: none for an empty
/// pattern; else one row for each match that is looked at, with one record
/// for each group.
pub open spec fn records_in(text: Seq<u8>, pattern: Seq<char>, flags: Flags) -> Seq<
    Seq<CapSerView>,
> {
    if pattern.len() == 0 {
        Seq::empty()
    } else {
        match_records(
            text,
            group_names(pattern, flags),
            first_of(all_matches(pattern, flags, text), limit_of(flags)),
        )
    }
}

/// What finding `pattern` in `text` comes to: why the pattern gives no
/// matcher, or the records of its matches.
pub open spec fn found_in(text: Seq<u8>, pattern: Seq<char>, flags: Flags) -> Result<
    Seq<Seq<CapSerView>>,
    FailureView,
> {
    match refusal(pattern, flags) {
        Some(failure) => Err(failure),
        None => Ok(records_in(text, pattern, flags)),
    }
}

/// What `out` says: the records, or the failure.
pub open spec fn found_view(out: Result<MatchSer, Failure>) -> Result<
    Seq<Seq<CapSerView>>,
    FailureView,
> {
    match out {
        Ok(found) => Ok(found@),
        Err(failure) => Err(failure@),
    }
}

/// What `out` says: the replacement, or the failure.
pub open spec fn replaced_view(out: Result<Replacement, Failure>) -> Result<
    ReplacementView,
    FailureView,
> {
    match out {
        Ok(replaced) => Ok(replaced@),
        Err(failure) => Err(failure@),
    }
}

/// Run a regular expression on a block of text, returning the records of its
/// matches
///
/// # Arguments
///
/// - `flags`: apply global flags, options `gimsUux`
/// - `text`: haystack to search in
/// - `reg_exp`: regular expression to match against
pub fn re_find_impl(text: &str, reg_exp: &str, flags: &str) -> (out: Result<MatchSer, Failure>)
    requires
        reg_exp@.len() > 0 ==> flags_valid(flags.spec_bytes()),
    ensures
        found_view(out) == found_in(text.spec_bytes(), reg_exp@, flags_of(flags.spec_bytes())),
        out matches Ok(found) ==> whole_matches_first(found@),
        out matches Err(Failure::Reported(err)) ==> err@.of_pattern(),
{
    let set = match check_pattern(reg_exp, flags) {
        Err(failure) => {
            return Err(failure);
        },
        Ok(None) => {
            return Ok(MatchSer::default());
        },
        Ok(Some(set)) => set,
    };
    // If we aren't global, limit to the first match
    let limit = if set.global {
        usize::MAX
    } else {
        1
    };
    let (names, ranges) = match find(reg_exp, &set, text.as_bytes(), limit) {
        Some(both) => both,
        None => {
            return Err(objection(reg_exp, &set));
        },
    };
    let found = collect_matches(text, &names, &ranges);
    proof {
        assert forall|i: int| 0 <= i < found@.len() implies (#[trigger] found@[i]).len() > 0
            && found@[i][0].entire_match by {
            assert(ranges_view(ranges@)[i][0] == ranges@[i]@[0]);
        }
    }
    Ok(found)
}

/// What replacing `pattern` in `text` by `rep` comes to: why the pattern
/// gives no matcher; the text as it is, for an empty pattern; else the text
/// with the first match replaced, or with `g` every match, and what is no
/// text after that made good.
pub open spec fn replaced_in(
    text: Seq<char>,
    pattern: Seq<char>,
    rep: Seq<char>,
    flags: Flags,
) -> Result<ReplacementView, FailureView> {
    match refusal(pattern, flags) {
        Some(failure) => Err(failure),
        None => Ok(
            if pattern.len() == 0 {
                ReplacementView::Plain(text)
            } else if flags.global {
                ReplacementView::Record(
                    lossy_decoded(
                        replaced_all(pattern, flags, encode_utf8(text), encode_utf8(rep)),
                    ),
                )
            } else {
                ReplacementView::Record(
                    lossy_decoded(
                        replaced_first(pattern, flags, encode_utf8(text), encode_utf8(rep)),
                    ),
                )
            },
        ),
    }
}

/// Perform a regex replacement on a provided string
pub fn re_replace_impl(text: &str, reg_exp: &str, rep: &str, flags: &str) -> (out: Result<
    Replacement,
    Failure,
>)
    requires
        reg_exp@.len() > 0 ==> flags_valid(flags.spec_bytes()),
    ensures
        replaced_view(out) == replaced_in(text@, reg_exp@, rep@, flags_of(flags.spec_bytes())),
        out matches Err(Failure::Reported(err)) ==> err@.of_pattern(),
{
    let set = match check_pattern(reg_exp, flags) {
        Err(failure) => {
            return Err(failure);
        },
        Ok(None) => {
            return Ok(Replacement::Plain(String::from_str(text)));
        },
        Ok(Some(set)) => set,
    };
    let text_bytes = text.as_bytes();
    let rep_bytes = rep.as_bytes();
    let replaced = if set.global {
        replace_all(reg_exp, &set, text_bytes, rep_bytes)
    } else {
        replace_first(reg_exp, &set, text_bytes, rep_bytes)
    };
    match replaced {
        // Invalid unicode is replaced with the invalid unicode character
        Some(bytes) => Ok(
            Replacement::Record(ReplacdSer { result: lossy_text(bytes.as_slice()) }),
        ),
        None => Err(objection(reg_exp, &set)),
    }
}

/// What listing the replacements for `pattern` in `text` comes to: why the
/// pattern gives no matcher; nothing, for an empty pattern; else `rep`
/// filled in from each match that is looked at, one after the other, and
/// what is no text after that made good.
pub open spec fn listed_in(
    text: Seq<char>,
    pattern: Seq<char>,
    rep: Seq<char>,
    flags: Flags,
) -> Result<ReplacementView, FailureView> {
    match refusal(pattern, flags) {
        Some(failure) => Err(failure),
        None => Ok(
            if pattern.len() == 0 {
                ReplacementView::Plain(Seq::empty())
            } else {
                ReplacementView::Record(
                    lossy_decoded(
                        joined(
                            first_of(
                                expansions(pattern, flags, encode_utf8(text), encode_utf8(rep)),
                                limit_of(flags),
                            ),
                        ),
                    ),
                )
            },
        ),
    }
}

/// Perform replacements and only return the matched string
pub fn re_replace_list_impl(text: &str, reg_exp: &str, rep: &str, flags: &str) -> (out: Result<
    Replacement,
    Failure,
>)
    requires
        reg_exp@.len() > 0 ==> flags_valid(flags.spec_bytes()),
    ensures
        replaced_view(out) == listed_in(text@, reg_exp@, rep@, flags_of(flags.spec_bytes())),
        out matches Err(Failure::Reported(err)) ==> err@.of_pattern(),
{
    let set = match check_pattern(reg_exp, flags) {
        Err(failure) => {
            return Err(failure);
        },
        Ok(None) => {
            return Ok(Replacement::Plain(String::new()));
        },
        Ok(Some(set)) => set,
    };
    let limit = if set.global {
        usize::MAX
    } else {
        1
    };
    let parts = match expand_each(reg_exp, &set, text.as_bytes(), rep.as_bytes(), limit) {
        Some(parts) => parts,
        None => {
            return Err(objection(reg_exp, &set));
        },
    };
    let mut dest: Vec<u8> = Vec::with_capacity(text.as_bytes().len());
    // For each match, append the expanded replacement string to our vector
    let mut i: usize = 0;
    proof {
        assert(parts_view(parts@).take(0) =~= Seq::<Seq<u8>>::empty());
    }
    while i < parts.len()
        invariant
            i <= parts@.len(),
            dest@ == joined(parts_view(parts@).take(i as int)),
        decreases parts@.len() - i,
    {
        let ghost before = dest@;
        dest.extend_from_slice(parts[i].as_slice());
        proof {
            let upto = parts_view(parts@).take(i + 1);
            assert(upto.drop_last() =~= parts_view(parts@).take(i as int));
            assert(upto.last() == parts@[i as int]@);
            assert(dest@ =~= before + parts@[i as int]@);
        }
        i = i + 1;
    }
    proof {
        assert(parts_view(parts@).take(i as int) =~= parts_view(parts@));
    }
    // Return a valid UTF-8 string that uses the replacement character where needed
    Ok(Replacement::Record(ReplacdSer { result: lossy_text(dest.as_slice()) }))
}

/// What unescaping `s` comes to, by the string type that `sep` names.
pub open spec fn unescaped(s: Seq<char>, sep: Option<String>) -> Result<Seq<char>, UnescapeView> {
    unescape_outcome(s, StrType::named(name_view(sep)).unwrap(), lexed_str(s))
}

/// The failure for the error `err` in the input string that `source` names.
pub open spec fn sourced(err: UnescapeView, source: Seq<char>) -> FailureView {
    FailureView::Reported(ErrorView::Unescape(UnescapeView { source: Some(source), ..err }))
}

/// The text of a borrowed or owned string.
fn as_text<'a>(text: &'a Cow<'_, str>) -> (borrowed: &'a str)
    ensures
        borrowed@ == text@,
{
    match text {
        Cow::Borrowed(borrowed) => borrowed,
        Cow::Owned(owned) => owned.as_str(),
    }
}

/// Whether a request to find can be answered: the string type of the text
/// has a name; that of the pattern has one, if the text unescapes; and every
/// flag is one, if the pattern unescapes too and is not empty.
pub open spec fn find_admitted(
    text: Seq<char>,
    reg_exp: Seq<char>,
    flags: Seq<u8>,
    text_sep: Option<String>,
    reg_exp_sep: Option<String>,
) -> bool {
    &&& StrType::named(name_view(text_sep)) is Some
    &&& unescaped(text, text_sep) is Ok ==> {
        &&& StrType::named(name_view(reg_exp_sep)) is Some
        &&& unescaped(reg_exp, reg_exp_sep) matches Ok(pattern) ==> (pattern.len() > 0
            ==> flags_valid(flags))
    }
}

/// What a request to find comes to: the error in the text, else that in the
/// pattern, each with its source; else what finding the pattern in the text
/// comes to, both unescaped.
pub open spec fn find_outcome(
    text: Seq<char>,
    reg_exp: Seq<char>,
    flags: Flags,
    text_sep: Option<String>,
    reg_exp_sep: Option<String>,
) -> Result<Seq<Seq<CapSerView>>, FailureView> {
    match unescaped(text, text_sep) {
        Err(err) => Err(sourced(err, "text"@)),
        Ok(haystack) => match unescaped(reg_exp, reg_exp_sep) {
            Err(err) => Err(sourced(err, "reg_exp"@)),
            Ok(pattern) => found_in(encode_utf8(haystack), pattern, flags),
        },
    }
}

/// Find the matches of `reg_exp` in `text`, each first unescaped by the
/// string type that its separator names.
///
/// An error in `text` is reported before one in `reg_exp`, and both before
/// the pattern is looked at.
pub fn re_find(
    text: &str,
    reg_exp: &str,
    flags: &str,
    text_sep: Option<String>,
    reg_exp_sep: Option<String>,
) -> (out: Result<MatchSer, Failure>)
    requires
        text.len() < usize::MAX - 5,
        reg_exp.len() < usize::MAX - 5,
        find_admitted(text@, reg_exp@, flags.spec_bytes(), text_sep, reg_exp_sep),
    ensures
        found_view(out) == find_outcome(
            text@,
            reg_exp@,
            flags_of(flags.spec_bytes()),
            text_sep,
            reg_exp_sep,
        ),
        out matches Ok(found) ==> whole_matches_first(found@),
{
    let text_esc = match unescape(text, &text_sep) {
        Ok(unescaped) => unescaped,
        Err(err) => {
            return Err(Failure::from_unescape(err, "text"));
        },
    };
    let reg_exp_esc = match unescape(reg_exp, &reg_exp_sep) {
        Ok(unescaped) => unescaped,
        Err(err) => {
            return Err(Failure::from_unescape(err, "reg_exp"));
        },
    };
    re_find_impl(as_text(&text_esc), as_text(&reg_exp_esc), flags)
}

/// `re_find` for any request: `None` for one that cannot be answered,
/// because a string type that is looked at has no name or, where the flags
/// are looked at, one of them is none.
pub fn try_re_find(
    text: &str,
    reg_exp: &str,
    flags: &str,
    text_sep: Option<String>,
    reg_exp_sep: Option<String>,
) -> (out: Option<Result<MatchSer, Failure>>)
    requires
        text.len() < usize::MAX - 5,
        reg_exp.len() < usize::MAX - 5,
    ensures
        out is Some <==> find_admitted(text@, reg_exp@, flags.spec_bytes(), text_sep, reg_exp_sep),
        out matches Some(answer) ==> found_view(answer) == find_outcome(
            text@,
            reg_exp@,
            flags_of(flags.spec_bytes()),
            text_sep,
            reg_exp_sep,
        ),
{
    if !is_named(&text_sep) {
        return None;
    }
    if unescape(text, &text_sep).is_ok() {
        if !is_named(&reg_exp_sep) {
            return None;
        }
        if let Ok(pattern) = unescape(reg_exp, &reg_exp_sep) {
            if !as_text(&pattern).is_empty() && Flags::parse(flags).is_none() {
                return None;
            }
        }
    }
    Some(re_find(text, reg_exp, flags, text_sep, reg_exp_sep))
}

/// Whether `sep` names a string type.
fn is_named(sep: &Option<String>) -> (named: bool)
    ensures
        named == StrType::named(name_view(*sep)) is Some,
{
    match sep {
        Some(name) => StrType::parse(Some(name.as_str())).is_some(),
        None => true,
    }
}

/// Whether a request to replace can be answered: the string type of the
/// text has a name; that of the pattern has one, if the text unescapes; that
/// of the replacement, if the pattern unescapes too; and every flag is one,
/// if the replacement unescapes as well and the pattern is not empty.
pub open spec fn replace_admitted(
    text: Seq<char>,
    reg_exp: Seq<char>,
    rep: Seq<char>,
    flags: Seq<u8>,
    text_sep: Option<String>,
    reg_exp_sep: Option<String>,
    rep_sep: Option<String>,
) -> bool {
    &&& StrType::named(name_view(text_sep)) is Some
    &&& unescaped(text, text_sep) is Ok ==> {
        &&& StrType::named(name_view(reg_exp_sep)) is Some
        &&& unescaped(reg_exp, reg_exp_sep) matches Ok(pattern) ==> {
            &&& StrType::named(name_view(rep_sep)) is Some
            &&& unescaped(rep, rep_sep) is Ok ==> (pattern.len() > 0 ==> flags_valid(flags))
        }
    }
}

/// What a request to replace comes to: the error in the text, else that in
/// the pattern, else that in the replacement, each with its source; else
/// what replacing comes to, all three unescaped.
pub open spec fn replace_outcome(
    text: Seq<char>,
    reg_exp: Seq<char>,
    rep: Seq<char>,
    flags: Flags,
    text_sep: Option<String>,
    reg_exp_sep: Option<String>,
    rep_sep: Option<String>,
) -> Result<ReplacementView, FailureView> {
    match unescaped(text, text_sep) {
        Err(err) => Err(sourced(err, "text"@)),
        Ok(haystack) => match unescaped(reg_exp, reg_exp_sep) {
            Err(err) => Err(sourced(err, "reg_exp"@)),
            Ok(pattern) => match unescaped(rep, rep_sep) {
                Err(err) => Err(sourced(err, "rep"@)),
                Ok(with) => replaced_in(haystack, pattern, with, flags),
            },
        },
    }
}

/// What a request to list replacements comes to: the errors as for a
/// request to replace; else what listing comes to, all three unescaped.
pub open spec fn replace_list_outcome(
    text: Seq<char>,
    reg_exp: Seq<char>,
    rep: Seq<char>,
    flags: Flags,
    text_sep: Option<String>,
    reg_exp_sep: Option<String>,
    rep_sep: Option<String>,
) -> Result<ReplacementView, FailureView> {
    match unescaped(text, text_sep) {
        Err(err) => Err(sourced(err, "text"@)),
        Ok(haystack) => match unescaped(reg_exp, reg_exp_sep) {
            Err(err) => Err(sourced(err, "reg_exp"@)),
            Ok(pattern) => match unescaped(rep, rep_sep) {
                Err(err) => Err(sourced(err, "rep"@)),
                Ok(with) => listed_in(haystack, pattern, with, flags),
            },
        },
    }
}

/// Replace the matches of `reg_exp` in `text` by `rep`, each of the three
/// first unescaped by the string type that its separator names.
///
/// An error in `text` is reported before one in `reg_exp`, that before one
/// in `rep`, and all before the pattern is looked at.
pub fn re_replace(
    text: &str,
    reg_exp: &str,
    rep: &str,
    flags: &str,
    text_sep: Option<String>,
    reg_exp_sep: Option<String>,
    rep_sep: Option<String>,
) -> (out: Result<Replacement, Failure>)
    requires
        text.len() < usize::MAX - 5,
        reg_exp.len() < usize::MAX - 5,
        rep.len() < usize::MAX - 5,
        replace_admitted(
            text@,
            reg_exp@,
            rep@,
            flags.spec_bytes(),
            text_sep,
            reg_exp_sep,
            rep_sep,
        ),
    ensures
        replaced_view(out) == replace_outcome(
            text@,
            reg_exp@,
            rep@,
            flags_of(flags.spec_bytes()),
            text_sep,
            reg_exp_sep,
            rep_sep,
        ),
{
    let text_esc = match unescape(text, &text_sep) {
        Ok(unescaped) => unescaped,
        Err(err) => {
            return Err(Failure::from_unescape(err, "text"));
        },
    };
    let reg_exp_esc = match unescape(reg_exp, &reg_exp_sep) {
        Ok(unescaped) => unescaped,
        Err(err) => {
            return Err(Failure::from_unescape(err, "reg_exp"));
        },
    };
    let rep_esc = match unescape(rep, &rep_sep) {
        Ok(unescaped) => unescaped,
        Err(err) => {
            return Err(Failure::from_unescape(err, "rep"));
        },
    };
    re_replace_impl(as_text(&text_esc), as_text(&reg_exp_esc), as_text(&rep_esc), flags)
}

/// For each match of `reg_exp` in `text`, `rep` with what the match took
/// filled in, one after the other; each of the three first unescaped by the
/// string type that its separator names.
///
/// An error in `text` is reported before one in `reg_exp`, that before one
/// in `rep`, and all before the pattern is looked at.
pub fn re_replace_list(
    text: &str,
    reg_exp: &str,
    rep: &str,
    flags: &str,
    text_sep: Option<String>,
    reg_exp_sep: Option<String>,
    rep_sep: Option<String>,
) -> (out: Result<Replacement, Failure>)
    requires
        text.len() < usize::MAX - 5,
        reg_exp.len() < usize::MAX - 5,
        rep.len() < usize::MAX - 5,
        replace_admitted(
            text@,
            reg_exp@,
            rep@,
            flags.spec_bytes(),
            text_sep,
            reg_exp_sep,
            rep_sep,
        ),
    ensures
        replaced_view(out) == replace_list_outcome(
            text@,
            reg_exp@,
            rep@,
            flags_of(flags.spec_bytes()),
            text_sep,
            reg_exp_sep,
            rep_sep,
        ),
{
    let text_esc = match unescape(text, &text_sep) {
        Ok(unescaped) => unescaped,
        Err(err) => {
            return Err(Failure::from_unescape(err, "text"));
        },
    };
    let reg_exp_esc = match unescape(reg_exp, &reg_exp_sep) {
        Ok(unescaped) => unescaped,
        Err(err) => {
            return Err(Failure::from_unescape(err, "reg_exp"));
        },
    };
    let rep_exc = match unescape(rep, &rep_sep) {
        Ok(unescaped) => unescaped,
        Err(err) => {
            return Err(Failure::from_unescape(err, "rep"));
        },
    };
    re_replace_list_impl(as_text(&text_esc), as_text(&reg_exp_esc), as_text(&rep_exc), flags)
}

/// Whether a request to replace, or to list replacements, can be answered.
fn replace_is_admitted(
    text: &str,
    reg_exp: &str,
    rep: &str,
    flags: &str,
    text_sep: &Option<String>,
    reg_exp_sep: &Option<String>,
    rep_sep: &Option<String>,
) -> (admitted: bool)
    requires
        text.len() < usize::MAX - 5,
        reg_exp.len() < usize::MAX - 5,
        rep.len() < usize::MAX - 5,
    ensures
        admitted == replace_admitted(
            text@,
            reg_exp@,
            rep@,
            flags.spec_bytes(),
            *text_sep,
            *reg_exp_sep,
            *rep_sep,
        ),
{
    if !is_named(text_sep) {
        return false;
    }
    if unescape(text, text_sep).is_ok() {
        if !is_named(reg_exp_sep) {
            return false;
        }
        if let Ok(pattern) = unescape(reg_exp, reg_exp_sep) {
            if !is_named(rep_sep) {
                return false;
            }
            if unescape(rep, rep_sep).is_ok() {
                if !as_text(&pattern).is_empty() && Flags::parse(flags).is_none() {
                    return false;
                }
            }
        }
    }
    true
}

/// `re_replace` for any request: `None` for one that cannot be answered,
/// because a string type that is looked at has no name or, where the flags
/// are looked at, one of them is none.
pub fn try_re_replace(
    text: &str,
    reg_exp: &str,
    rep: &str,
    flags: &str,
    text_sep: Option<String>,
    reg_exp_sep: Option<String>,
    rep_sep: Option<String>,
) -> (out: Option<Result<Replacement, Failure>>)
    requires
        text.len() < usize::MAX - 5,
        reg_exp.len() < usize::MAX - 5,
        rep.len() < usize::MAX - 5,
    ensures
        out is Some <==> replace_admitted(
            text@,
            reg_exp@,
            rep@,
            flags.spec_bytes(),
            text_sep,
            reg_exp_sep,
            rep_sep,
        ),
        out matches Some(answer) ==> replaced_view(answer) == replace_outcome(
            text@,
            reg_exp@,
            rep@,
            flags_of(flags.spec_bytes()),
            text_sep,
            reg_exp_sep,
            rep_sep,
        ),
{
    if !replace_is_admitted(text, reg_exp, rep, flags, &text_sep, &reg_exp_sep, &rep_sep) {
        return None;
    }
    Some(re_replace(text, reg_exp, rep, flags, text_sep, reg_exp_sep, rep_sep))
}

/// `re_replace_list` for any request: `None` for one that cannot be
/// answered, because a string type that is looked at has no name or, where
/// the flags are looked at, one of them is none.
pub fn try_re_replace_list(
    text: &str,
    reg_exp: &str,
    rep: &str,
    flags: &str,
    text_sep: Option<String>,
    reg_exp_sep: Option<String>,
    rep_sep: Option<String>,
) -> (out: Option<Result<Replacement, Failure>>)
    requires
        text.len() < usize::MAX - 5,
        reg_exp.len() < usize::MAX - 5,
        rep.len() < usize::MAX - 5,
    ensures
        out is Some <==> replace_admitted(
            text@,
            reg_exp@,
            rep@,
            flags.spec_bytes(),
            text_sep,
            reg_exp_sep,
            rep_sep,
        ),
        out matches Some(answer) ==> replaced_view(answer) == replace_list_outcome(
            text@,
            reg_exp@,
            rep@,
            flags_of(flags.spec_bytes()),
            text_sep,
            reg_exp_sep,
            rep_sep,
        ),
{
    if !replace_is_admitted(text, reg_exp, rep, flags, &text_sep, &reg_exp_sep, &rep_sep) {
        return None;
    }
    Some(re_replace_list(text, reg_exp, rep, flags, text_sep, reg_exp_sep, rep_sep))
}

} // verus!
