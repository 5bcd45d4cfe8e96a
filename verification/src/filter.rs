//! Selection of players by a part of their name, without regard to case.

use vstd::prelude::*;

verus! {

/// The lower-case form of a text, as `str::to_lowercase` gives it.
pub uninterp spec fn lowercase_of(text: Seq<char>) -> Seq<char>;

/// Whether `needle` occurs in `haystack` as a run of neighbouring
/// characters.
pub open spec fn occurs_in(needle: Seq<char>, haystack: Seq<char>) -> bool {
    exists|start: int|
        0 <= start && start + needle.len() <= haystack.len() && #[trigger] haystack.subrange(
            start,
            start + needle.len(),
        ) == needle
}

/// Whether a player of this name is selected by `filter`: an empty filter
/// selects every player, any other those whose lower-case name holds the
/// lower-case filter.
pub open spec fn name_passes(name: Seq<char>, filter: Seq<char>) -> bool {
    filter.len() == 0 || occurs_in(lowercase_of(filter), lowercase_of(name))
}

/// Calls `str::to_lowercase` of the standard library. Not proved: that the
/// result is the lower-case form of the argument, which depends on the
/// characters of the argument and on nothing else.
#[verifier::external_body]
fn to_lowercase(text: &str) -> (lower: String)
    ensures
        lower@ == lowercase_of(text@),
{
    text.to_lowercase()
}

/// Calls `str::contains` of the standard library with a string as the
/// pattern. Not proved: that the result tells whether the characters of the
/// pattern occur in the text, one next to the other.
#[verifier::external_body]
fn contains(text: &str, pattern: &str) -> (found: bool)
    ensures
        found == occurs_in(pattern@, text@),
{
    text.contains(pattern)
}

/// A filter on player names, prepared for repeated use.
pub struct NameFilter {
    text: String,
    folded: String,
}

impl NameFilter {
    /// The filter as it was given.
    pub closed spec fn text(&self) -> Seq<char> {
        self.text@
    }

    /// The lower-case form that is kept is that of the text.
    #[verifier::type_invariant]
    spec fn folded_from_text(&self) -> bool {
        self.folded@ == lowercase_of(self.text@)
    }

    /// Prepares a filter.
    pub fn new(text: &str) -> (filter: Self)
        ensures
            filter.text() == text@,
    {
        NameFilter { text: text.to_owned(), folded: to_lowercase(text) }
    }

    /// Decides whether the filter selects a player of this name.
    pub fn admits(&self, name: &str) -> (admitted: bool)
        ensures
            admitted == name_passes(name@, self.text()),
    {
        proof {
            use_type_invariant(self);
        }
        if self.text.as_str().is_empty() {
            true
        } else {
            let folded_name = to_lowercase(name);
            folded_name_holds(folded_name.as_str(), self.folded.as_str())
        }
    }
}

/// Decides on a name and a filter that are both in lower case already:
/// whether the name holds the filter.
pub fn folded_name_holds(folded_name: &str, folded_filter: &str) -> (holds: bool)
    ensures
        holds == occurs_in(folded_filter@, folded_name@),
{
    contains(folded_name, folded_filter)
}

/// Decides whether `filter` selects a player of this name.
pub fn name_matches(name: &str, filter: &str) -> (matches: bool)
    ensures
        matches == name_passes(name@, filter@),
{
    NameFilter::new(filter).admits(name)
}

} // verus!
