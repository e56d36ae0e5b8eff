//! The matcher, which is `regex`'s, over bytes.

use regex::bytes::{Captures, Regex};
use vstd::prelude::*;

use crate::flags::Flags;
use crate::{names_view, parts_view, ranges_fit, ranges_view, Taken};

verus! {

/// `regex::bytes::Regex`: a compiled pattern. What is inside is not known
/// here.
#[verifier::external_type_specification]
#[verifier::external_body]
pub struct ExRegex(Regex);

/// What kind of error the matcher gave.
#[derive(Clone, Copy, Debug, PartialEq, Eq, Structural)]
pub enum BuildErrorKind {
    /// The pattern is not well formed
    Syntax,
    /// The compiled matcher is larger than the limit
    CompiledTooBig,
    /// Anything else
    Unspecified,
}

/// The first `limit` of `all`, or all of them where there are fewer.
pub open spec fn first_of<T>(all: Seq<T>, limit: usize) -> Seq<T> {
    all.take(
        if limit <= all.len() {
            limit as int
        } else {
            all.len() as int
        },
    )
}

/// Whether the matcher compiles `pattern` under `flags`.
pub uninterp spec fn matcher_compiles(pattern: Seq<char>, flags: Flags) -> bool;

/// What the matcher objects to a `pattern` that it does not compile under
/// `flags`: which variant of `regex::Error` it gives, and what `Display`
/// writes for it.
pub uninterp spec fn matcher_objects(pattern: Seq<char>, flags: Flags) -> (
    BuildErrorKind,
    Seq<char>,
);

/// The name of each capture group of `pattern`, in order; `None` for a
/// group without a name.
pub uninterp spec fn group_names(pattern: Seq<char>, flags: Flags) -> Seq<Option<Seq<char>>>;

/// The matches of `pattern` in `text` from first to last, none overlapping
/// another, each with the bytes of `text` that each group took in it.
pub uninterp spec fn all_matches(pattern: Seq<char>, flags: Flags, text: Seq<u8>) -> Seq<
    Seq<Taken>,
>;

/// `text` with the first match of `pattern` replaced by `rep`, in which the
/// references to capture groups are filled in.
pub uninterp spec fn replaced_first(
    pattern: Seq<char>,
    flags: Flags,
    text: Seq<u8>,
    rep: Seq<u8>,
) -> Seq<u8>;

/// `text` with every match of `pattern` replaced by `rep`, in which the
/// references to capture groups are filled in.
pub uninterp spec fn replaced_all(
    pattern: Seq<char>,
    flags: Flags,
    text: Seq<u8>,
    rep: Seq<u8>,
) -> Seq<u8>;

/// For each match of `pattern` in `text`, from first to last: `rep` with the
/// references to capture groups in it filled in from that match.
pub uninterp spec fn expansions(
    pattern: Seq<char>,
    flags: Flags,
    text: Seq<u8>,
    rep: Seq<u8>,
) -> Seq<Seq<u8>>;

/// Builds a `regex::bytes::RegexBuilder` for `pattern` that has each option
/// as `flags` has it, and compiles the pattern with it: `Ok` with the
/// compiled pattern, or which variant of `regex::Error` the matcher gave and
/// what `Display` writes for it.
#[verifier::external_body]
pub(crate) fn compile(pattern: &str, flags: &Flags) -> (out: Result<
    Regex,
    (BuildErrorKind, String),
>)
    ensures
        out is Ok <==> matcher_compiles(pattern@, *flags),
        out matches Err(said) ==> (said.0, said.1@) == matcher_objects(pattern@, *flags),
{
    regex::bytes::RegexBuilder::new(pattern)
        .unicode(flags.unicode)
        .case_insensitive(flags.case_insensitive)
        .multi_line(flags.multi_line)
        .dot_matches_new_line(flags.dot_matches_new_line)
        .swap_greed(flags.swap_greed)
        .ignore_whitespace(flags.ignore_whitespace)
        .build()
        .map_err(|err| match &err {
            regex::Error::Syntax(_) => (BuildErrorKind::Syntax, err.to_string()),
            regex::Error::CompiledTooBig(_) => (BuildErrorKind::CompiledTooBig, err.to_string()),
            _ => (BuildErrorKind::Unspecified, err.to_string()),
        })
}

/// Whether the names of groups and the matches `found` can be those of a
/// pattern in `text`. The first group is the whole match: it has no name and
/// takes part in every match. Each match holds all groups, and what a group
/// took lies in the text.
pub open spec fn well_found(found: (Vec<Option<String>>, Vec<Vec<Taken>>), text: Seq<u8>) -> bool {
    &&& found.0@.len() >= 1
    &&& found.0@[0] is None
    &&& ranges_fit(text, ranges_view(found.1@))
    &&& forall|i: int|
        0 <= i < found.1@.len() ==> (#[trigger] found.1@[i])@.len() == found.0@.len()
            && found.1@[i]@[0] is Some
}

/// Compiles `pattern` as `compile` does, and reads from it with
/// `regex::bytes::Regex::capture_names` the names of its groups, and with
/// `captures_iter` and `regex::bytes::Captures::iter` its first `limit`
/// matches in `text`. `None` where the pattern does not compile.
#[verifier::external_body]
pub(crate) fn find(pattern: &str, flags: &Flags, text: &[u8], limit: usize) -> (found: Option<
    (Vec<Option<String>>, Vec<Vec<Taken>>),
>)
    ensures
        found is Some <==> matcher_compiles(pattern@, *flags),
        found matches Some(both) ==> {
            &&& names_view(both.0@) == group_names(pattern@, *flags)
            &&& ranges_view(both.1@) == first_of(all_matches(pattern@, *flags, text@), limit)
            &&& well_found(both, text@)
        },
{
    let re = regex::bytes::RegexBuilder::new(pattern)
        .unicode(flags.unicode)
        .case_insensitive(flags.case_insensitive)
        .multi_line(flags.multi_line)
        .dot_matches_new_line(flags.dot_matches_new_line)
        .swap_greed(flags.swap_greed)
        .ignore_whitespace(flags.ignore_whitespace)
        .build().ok()?;
    let names = re.capture_names().map(|name| name.map(str::to_owned)).collect();
    let row = |found: Captures| found.iter().map(|m| m.map(|m| (m.start(), m.end()))).collect();
    Some((names, re.captures_iter(text).take(limit).map(row).collect()))
}

/// Compiles `pattern` as `compile` does, and replaces with
/// `regex::bytes::Regex::replace`. `None` where the pattern does not
/// compile.
#[verifier::external_body]
pub(crate) fn replace_first(pattern: &str, flags: &Flags, text: &[u8], rep: &[u8]) -> (out: Option<
    Vec<u8>,
>)
    ensures
        out is Some <==> matcher_compiles(pattern@, *flags),
        out matches Some(bytes) ==> bytes@ == replaced_first(pattern@, *flags, text@, rep@),
{
    regex::bytes::RegexBuilder::new(pattern)
        .unicode(flags.unicode)
        .case_insensitive(flags.case_insensitive)
        .multi_line(flags.multi_line)
        .dot_matches_new_line(flags.dot_matches_new_line)
        .swap_greed(flags.swap_greed)
        .ignore_whitespace(flags.ignore_whitespace)
        .build().ok()
        .map(|re| re.replace(text, rep).into_owned())
}

/// Compiles `pattern` as `compile` does, and replaces with
/// `regex::bytes::Regex::replace_all`. `None` where the pattern does not
/// compile.
#[verifier::external_body]
pub(crate) fn replace_all(pattern: &str, flags: &Flags, text: &[u8], rep: &[u8]) -> (out: Option<
    Vec<u8>,
>)
    ensures
        out is Some <==> matcher_compiles(pattern@, *flags),
        out matches Some(bytes) ==> bytes@ == replaced_all(pattern@, *flags, text@, rep@),
{
    regex::bytes::RegexBuilder::new(pattern)
        .unicode(flags.unicode)
        .case_insensitive(flags.case_insensitive)
        .multi_line(flags.multi_line)
        .dot_matches_new_line(flags.dot_matches_new_line)
        .swap_greed(flags.swap_greed)
        .ignore_whitespace(flags.ignore_whitespace)
        .build().ok()
        .map(|re| re.replace_all(text, rep).into_owned())
}

/// Compiles `pattern` as `compile` does, and gives for each of its first
/// `limit` matches in `text` what `regex::bytes::Captures::expand` appends
/// for `rep`. `None` where the pattern does not compile.
#[verifier::external_body]
pub(crate) fn expand_each(
    pattern: &str,
    flags: &Flags,
    text: &[u8],
    rep: &[u8],
    limit: usize,
) -> (out: Option<Vec<Vec<u8>>>)
    ensures
        out is Some <==> matcher_compiles(pattern@, *flags),
        out matches Some(parts) ==> parts_view(parts@) == first_of(
            expansions(pattern@, *flags, text@, rep@),
            limit,
        ),
{
    let re = regex::bytes::RegexBuilder::new(pattern)
        .unicode(flags.unicode)
        .case_insensitive(flags.case_insensitive)
        .multi_line(flags.multi_line)
        .dot_matches_new_line(flags.dot_matches_new_line)
        .swap_greed(flags.swap_greed)
        .ignore_whitespace(flags.ignore_whitespace)
        .build().ok()?;
    let expand = |found: Captures| {
        let mut dst = Vec::new();
        found.expand(rep, &mut dst);
        dst
    };
    Some(re.captures_iter(text).take(limit).map(expand).collect())
}

} // verus!
