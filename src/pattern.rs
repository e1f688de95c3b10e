//! The regular expression engine, behind the items this library relies on.
use vstd::prelude::*;
use regex::Regex;

verus! {

#[verifier::external_type_specification]
#[verifier::external_body]
pub struct ExRegex(regex::Regex);

/// Whether the regex crate compiles `pattern` (its syntax, within its default size limit).
pub uninterp spec fn regex_accepts(pattern: Seq<char>) -> bool;

/// Relies on regex::Regex::new: whether it succeeds depends on the pattern alone.
#[verifier::external_body]
pub(crate) fn compile(pattern: &str) -> (r: Option<Regex>)
    ensures
        r is Some == regex_accepts(pattern@),
{
    Regex::new(pattern).ok()
}

/// Relies on regex::Regex::capture_names: one entry per capture group, in
/// group order, the name of each named group.
#[verifier::external_body]
pub(crate) fn group_names(re: &Regex) -> (r: Vec<Option<String>>)
{
    re.capture_names().map(|n| n.map(|s| s.to_string())).collect()
}

/// `p` is a prefix of `s`.
pub open spec fn is_prefix(p: Seq<char>, s: Seq<char>) -> bool {
    p.len() <= s.len() && s.subrange(0, p.len() as int) == p
}

/// A participating group, given by the text before its start and the text
/// before its end, both prefixes of the line, the first no longer than the second.
pub open spec fn bounds_within(g: Option<(&str, &str)>, line: Seq<char>) -> bool {
    match g {
        Some((a, b)) => is_prefix(a@, line) && is_prefix(b@, line) && a@.len() <= b@.len(),
        None => true,
    }
}

/// Relies on regex::Regex::captures_iter and Captures::iter: for every
/// successive non-overlapping match, each group (the whole match first) is
/// absent or spans a range of char boundaries of the line with start <= end.
/// Each bound is handed out as the prefix of the line that ends there.
#[verifier::external_body]
pub(crate) fn capture_bounds<'a>(re: &Regex, line: &'a str) -> (r: Vec<Vec<Option<(&'a str, &'a str)>>>)
    ensures
        forall|m: int, g: int|
            0 <= m < r@.len() && 0 <= g < r@[m]@.len() ==> bounds_within(
                #[trigger] r@[m]@[g],
                line@,
            ),
{
    re.captures_iter(line).map(|c| {
        c.iter().map(|g| g.map(|x| (&line[..x.start()], &line[..x.end()]))).collect()
    }).collect()
}

} // verus!
