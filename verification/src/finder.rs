//! The calls into the search crates.

use vstd::prelude::*;

verus! {

/// `needle` stands in `hay` from position `p` on.
pub open spec fn occurs_at(hay: Seq<u8>, needle: Seq<u8>, p: int) -> bool {
    0 <= p && p + needle.len() <= hay.len() && hay.subrange(p, p + needle.len() as int) == needle
}

/// How far a scan moves on behind an occurrence: past it, and by one byte at
/// least.
pub open spec fn stride(needle: Seq<u8>) -> int {
    if needle.len() == 0 {
        1
    } else {
        needle.len() as int
    }
}

/// `found` are the occurrences that a scan from left to right reports: each is
/// an occurrence, no two overlap, and one that is left out overlaps a reported
/// one that starts before it.
pub open spec fn is_scan(found: Seq<usize>, hay: Seq<u8>, needle: Seq<u8>) -> bool {
    &&& forall|i: int| 0 <= i < found.len() ==> occurs_at(hay, needle, #[trigger] found[i] as int)
    &&& forall|i: int, j: int|
        0 <= i < j < found.len() ==> #[trigger] found[i] + stride(needle) <= #[trigger] found[j]
    &&& forall|p: int| #[trigger]
        occurs_at(hay, needle, p) ==> exists|i: int|
            0 <= i < found.len() && #[trigger] found[i] <= p < found[i] + stride(needle)
}

/// `memchr::memmem::Finder::find_iter` yields the positions of all
/// non-overlapping occurrences from left to right; an empty needle occurs at
/// every position, the end among them.
#[verifier::external_body]
pub(crate) fn find_all(needle: &[u8], haystack: &[u8]) -> (found: Vec<usize>)
    ensures
        is_scan(found@, haystack@, needle@),
{
    memchr::memmem::Finder::new(needle).find_iter(haystack).collect()
}

/// What `regex::bytes::Regex::new` has to say against a pattern, as it
/// displays it; `None` where it compiles the pattern.
pub uninterp spec fn regex_error(pattern: Seq<char>) -> Option<Seq<char>>;

/// The starts of the matches that `regex::bytes::Regex::find_iter` yields in a
/// haystack, in its order; `None` where the pattern does not compile.
pub uninterp spec fn regex_starts(pattern: Seq<char>, haystack: Seq<u8>) -> Option<Seq<usize>>;

/// The text of an optional string.
pub open spec fn text_view(text: Option<String>) -> Option<Seq<char>> {
    match text {
        Some(t) => Some(t@),
        None => None,
    }
}

/// `regex::bytes::Regex::new` compiles the pattern or returns an error, and
/// its error displays as text.
#[verifier::external_body]
pub(crate) fn check_regex(pattern: &str) -> (error: Option<String>)
    ensures
        text_view(error) == regex_error(pattern@),
{
    match regex::bytes::Regex::new(pattern) {
        Ok(_) => None,
        Err(e) => Some(e.to_string()),
    }
}

/// `regex::bytes::Regex::find_iter`, on the pattern that
/// `regex::bytes::Regex::new` compiles, yields the successive matches in the
/// haystack. Each starts within it, or at its end, and none starts before the
/// one that was yielded before it, since the search goes on at its end.
#[verifier::external_body]
pub(crate) fn find_regex(pattern: &str, haystack: &[u8]) -> (starts: Option<Vec<usize>>)
    ensures
        starts is None <==> regex_error(pattern@) is Some,
        starts is None ==> regex_starts(pattern@, haystack@) is None,
        starts matches Some(v) ==> regex_starts(pattern@, haystack@) == Some(v@),
        starts matches Some(v) ==> forall|i: int|
            0 <= i < v@.len() ==> #[trigger] v@[i] <= haystack@.len(),
        starts matches Some(v) ==> forall|i: int, j: int|
            0 <= i <= j < v@.len() ==> #[trigger] v@[i] <= #[trigger] v@[j],
{
    match regex::bytes::Regex::new(pattern) {
        Ok(re) => Some(re.find_iter(haystack).map(|m| m.start()).collect()),
        Err(_) => None,
    }
}

} // verus!
