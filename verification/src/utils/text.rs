//! Text values and the few string operations the service needs.
use vstd::prelude::*;

verus! {

/// The characters of an optional string.
pub open spec fn opt_text(text: Option<String>) -> Option<Seq<char>> {
    match text {
        Some(s) => Some(s@),
        None => None,
    }
}

/// The characters of each string of a list.
pub open spec fn texts(list: Seq<String>) -> Seq<Seq<char>> {
    Seq::new(list.len(), |i: int| list[i]@)
}

/// A result whose error is a text, by its views.
pub open spec fn unit_result(result: Result<(), String>) -> Result<(), Seq<char>> {
    match result {
        Ok(()) => Ok(()),
        Err(e) => Err(e@),
    }
}

/// `needle` stands in `text` at position `at`.
pub open spec fn occurs_at(text: Seq<char>, needle: Seq<char>, at: int) -> bool {
    &&& 0 <= at
    &&& at + needle.len() <= text.len()
    &&& text.subrange(at, at + needle.len()) == needle
}

/// `needle` stands somewhere in `text`.
pub open spec fn has_text(text: Seq<char>, needle: Seq<char>) -> bool {
    exists|at: int| occurs_at(text, needle, at)
}

/// Whether `needle` stands somewhere in `text`.
///
/// Trusted: `str::contains` from the standard library returns true exactly when the pattern
/// matches a sub-slice of the string, read here as a run of characters.
#[verifier::external_body]
pub(crate) fn contains(text: &str, needle: &str) -> (found: bool)
    ensures
        found == has_text(text@, needle@),
{
    text.contains(needle)
}

/// `prefix` followed by `rest`.
pub fn prefixed(prefix: &str, rest: &str) -> (joined: String)
    ensures
        joined@ == prefix@ + rest@,
{
    let mut joined: String = prefix.to_owned();
    joined.append(rest);
    joined
}

/// A copy of a list of strings.
pub fn copy_texts(list: &Vec<String>) -> (copy: Vec<String>)
    ensures
        texts(copy@) == texts(list@),
{
    let copy = list.clone();
    assert(texts(copy@) =~= texts(list@));
    copy
}

/// Text that follows a prefix is still found behind it.
pub proof fn lemma_prefix_keeps_text(prefix: Seq<char>, text: Seq<char>, needle: Seq<char>)
    requires
        has_text(text, needle),
    ensures
        has_text(prefix + text, needle),
{
    let at = choose|at: int| occurs_at(text, needle, at);
    let whole = prefix + text;
    let shifted = prefix.len() + at;
    assert(whole.subrange(shifted, shifted + needle.len()) =~= text.subrange(
        at,
        at + needle.len(),
    ));
    assert(occurs_at(whole, needle, shifted));
}

/// Lists, optional texts and results are spoken of by all their characters.
pub proof fn law_texts_are_shown_whole(list: Seq<String>, text: String, i: int)
    requires
        0 <= i < list.len(),
    ensures
        texts(list).len() == list.len(),
        texts(list)[i] == list[i]@,
        opt_text(Some(text)) == Some(text@),
        opt_text(None) == None::<Seq<char>>,
        unit_result(Err(text)) == Err::<(), Seq<char>>(text@),
        unit_result(Ok(())) == Ok::<(), Seq<char>>(()),
{
}

} // verus!
