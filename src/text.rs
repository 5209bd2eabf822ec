//! Plain text facts shared by the path tracker, the extractor and the rewriter.

use vstd::prelude::*;

verus! {

/// `needle` occurs as a contiguous run of characters inside `hay`.
pub open spec fn is_substring(needle: Seq<char>, hay: Seq<char>) -> bool {
    exists|i: int|
        0 <= i && i + needle.len() <= hay.len() && #[trigger] hay.subrange(i, i + needle.len())
            == needle
}

/// A substring of a text is a substring of any longer text that begins with it.
pub proof fn lemma_substring_of_prefix(needle: Seq<char>, hay: Seq<char>, rest: Seq<char>)
    requires
        is_substring(needle, hay),
    ensures
        is_substring(needle, hay + rest),
{
    let i = choose|i: int|
        0 <= i && i + needle.len() <= hay.len() && #[trigger] hay.subrange(i, i + needle.len())
            == needle;
    assert((hay + rest).subrange(i, i + needle.len()) =~= hay.subrange(i, i + needle.len()));
}

/// Relies on `str::contains` with a `&str` pattern: true exactly when the
/// pattern occurs as a contiguous part of the string.
#[verifier::external_body]
pub(crate) fn contains_text(hay: &str, needle: &str) -> (r: bool)
    ensures
        r == is_substring(needle@, hay@),
{
    hay.contains(needle)
}

} // verus!
