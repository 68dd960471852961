//! Case-insensitive keyword matching over titles and bodies.

use vstd::prelude::*;

verus! {

/// The case-folded form of a string, as `str::to_lowercase` computes it.
pub uninterp spec fn lower_of(s: Seq<char>) -> Seq<char>;

/// `needle` occurs contiguously somewhere inside `hay`.
pub open spec fn is_substring_of(needle: Seq<char>, hay: Seq<char>) -> bool {
    exists|i: int|
        0 <= i && i + needle.len() <= hay.len() && #[trigger] hay.subrange(
            i,
            i + needle.len(),
        ) == needle
}

/// One keyword matches a text: the folded keyword occurs in the folded text.
pub open spec fn keyword_matches(text: Seq<char>, kw: Seq<char>) -> bool {
    is_substring_of(lower_of(kw), lower_of(text))
}

/// Some keyword of the list matches the text.
pub open spec fn any_keyword_matches(text: Seq<char>, kws: Seq<Seq<char>>) -> bool {
    exists|i: int| 0 <= i < kws.len() && keyword_matches(text, kws[i])
}

/// Relies on `str::to_lowercase`: the case-folded result depends on the
/// characters of the input alone.
#[verifier::external_body]
fn to_lower(s: &str) -> (r: String)
    ensures
        r@ == lower_of(s@),
{
    s.to_lowercase()
}

/// Relies on `str::contains`: returns true exactly when the pattern occurs
/// as a contiguous substring of the receiver.
#[verifier::external_body]
fn contains_str(hay: &str, needle: &str) -> (r: bool)
    ensures
        r == is_substring_of(needle@, hay@),
{
    hay.contains(needle)
}

/// Does this one keyword, case-folded, occur in the case-folded text?
pub fn keyword_in(text: &str, kw: &str) -> (r: bool)
    ensures
        r == keyword_matches(text@, kw@),
{
    let t = to_lower(text);
    let k = to_lower(kw);
    contains_str(t.as_str(), k.as_str())
}

/// True iff some keyword of the list, case-folded, occurs in the case-folded text.
pub fn contains_any(s: &str, keywords: Vec<&str>) -> (r: bool)
    ensures
        r == any_keyword_matches(s@, keywords.deep_view()),
{
    let mut i: usize = 0;
    while i < keywords.len()
        invariant
            i <= keywords.len(),
            forall|j: int| 0 <= j < i ==> !keyword_matches(s@, keywords.deep_view()[j]),
        decreases keywords.len() - i,
    {
        if keyword_in(s, keywords[i]) {
            assert(keyword_matches(s@, keywords.deep_view()[i as int]));
            return true;
        }
        i += 1;
    }
    false
}

/// As `contains_any`, for an owned keyword list.
pub fn text_matches(s: &str, keywords: &Vec<String>) -> (r: bool)
    ensures
        r == any_keyword_matches(s@, keywords.deep_view()),
{
    let mut i: usize = 0;
    while i < keywords.len()
        invariant
            i <= keywords.len(),
            forall|j: int| 0 <= j < i ==> !keyword_matches(s@, keywords.deep_view()[j]),
        decreases keywords.len() - i,
    {
        if keyword_in(s, keywords[i].as_str()) {
            assert(keyword_matches(s@, keywords.deep_view()[i as int]));
            return true;
        }
        i += 1;
    }
    false
}

} // verus!
