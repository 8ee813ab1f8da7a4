//! The calls that leave the verified code: each one's contract is what the
//! called function's documentation promises.
use vstd::prelude::*;
use itertools::Itertools;
use crate::text::texts;

verus! {

/// `s` without repeats: the first occurrence of each element stays, in order.
pub open spec fn dedup(s: Seq<Seq<char>>) -> Seq<Seq<char>>
    decreases s.len(),
{
    if s.len() == 0 {
        Seq::empty()
    } else {
        let prev = dedup(s.drop_last());
        if prev.contains(s.last()) {
            prev
        } else {
            prev.push(s.last())
        }
    }
}

/// The text that parsing `text` as JSON and printing the value again with
/// indentation gives; `None` where `text` is not a JSON document.
pub uninterp spec fn pretty_json(text: Seq<char>) -> Option<Seq<char>>;

/// Whether the path written `path` ends with the whole components of the
/// path written `child`.
pub uninterp spec fn path_ends_with(path: Seq<char>, child: Seq<char>) -> bool;

/// Relies on `Itertools::unique`: it keeps the first of each run of equal
/// elements, in the order in which they occur.
#[verifier::external_body]
pub(crate) fn unique_strings(v: Vec<String>) -> (r: Vec<String>)
    ensures
        texts(r@) == dedup(texts(v@)),
{
    v.into_iter().unique().collect()
}

/// Relies on `serde_json::from_str` into a `serde_json::Value` and
/// `serde_json::to_string_pretty` of that value: `None` where either fails.
/// The result depends on the text alone.
#[verifier::external_body]
pub(crate) fn reformat_json(text: &str) -> (r: Option<String>)
    ensures
        match r {
            Some(p) => pretty_json(text@) == Some(p@),
            None => pretty_json(text@) is None,
        },
{
    match serde_json::from_str::<serde_json::Value>(text) {
        Ok(value) => serde_json::to_string_pretty(&value).ok(),
        Err(_) => None,
    }
}

/// Relies on `std::path::Path::ends_with`: whole components only.
#[verifier::external_body]
pub(crate) fn ends_with_path(path: &str, child: &str) -> (r: bool)
    ensures
        r == path_ends_with(path@, child@),
{
    std::path::Path::new(path).ends_with(child)
}

} // verus!
