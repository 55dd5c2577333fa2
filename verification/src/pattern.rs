//! Searching text with regular expressions, by the `regex` crate.
use vstd::prelude::*;

verus! {

/// The message with which `regex::Regex::new` refuses a pattern; none where it accepts it.
pub uninterp spec fn regex_error(pattern: Seq<char>) -> Option<Seq<char>>;

/// Whether a pattern is a regular expression that matches somewhere in a text, as
/// `regex::Regex::is_match` decides.
pub uninterp spec fn regex_matches(pattern: Seq<char>, text: Seq<char>) -> bool;

/// The groups of the first match of a pattern in a text, the whole match first, as
/// `regex::Regex::captures` finds them; none where the pattern is refused or does not match.
pub uninterp spec fn regex_captures(pattern: Seq<char>, text: Seq<char>) -> Option<
    Seq<Option<Seq<char>>>,
>;

/// A text without what a pattern matches, as `regex::Regex::replace_all` leaves it out; the text
/// itself where the pattern is refused.
pub uninterp spec fn regex_removed(pattern: Seq<char>, text: Seq<char>) -> Seq<char>;

/// The views of the groups of a match.
pub open spec fn group_views(groups: Seq<Option<String>>) -> Seq<Option<Seq<char>>> {
    groups.map_values(|g: Option<String>| crate::text::optional_view(g))
}

/// Calls `regex::Regex::new` and keeps the text of its error. The contract only names the result:
/// it depends on nothing but the pattern.
#[verifier::external_body]
pub(crate) fn pattern_error(pattern: &str) -> (message: Option<String>)
    ensures
        crate::text::optional_view(message) == regex_error(pattern@),
{
    regex::Regex::new(pattern).err().map(|e| e.to_string())
}

/// Calls `regex::Regex::is_match` on the pattern as `regex::Regex::new` compiles it, and answers
/// no where that refuses the pattern. The contract only names the result: it depends on nothing
/// but the pattern and the text.
#[verifier::external_body]
pub(crate) fn is_match(pattern: &str, text: &str) -> (found: bool)
    ensures
        found == regex_matches(pattern@, text@),
{
    regex::Regex::new(pattern).map_or(false, |re| re.is_match(text))
}

/// Calls `regex::Regex::captures` on the pattern as `regex::Regex::new` compiles it and copies the
/// groups. The contract only names the result: it depends on nothing but the pattern and the text.
#[verifier::external_body]
pub(crate) fn captures(pattern: &str, text: &str) -> (groups: Option<Vec<Option<String>>>)
    ensures
        match groups {
            Some(g) => regex_captures(pattern@, text@) == Some(group_views(g@)),
            None => regex_captures(pattern@, text@) is None,
        },
{
    let re = regex::Regex::new(pattern).ok()?;
    let found = re.captures(text)?;
    Some(found.iter().map(|m| m.map(|m| m.as_str().to_string())).collect())
}

/// Calls `regex::Regex::replace_all` with nothing as the replacement, on the pattern as
/// `regex::Regex::new` compiles it, and hands the text back where that refuses the pattern. The
/// contract only names the result: it depends on nothing but the pattern and the text.
#[verifier::external_body]
pub(crate) fn remove_all(pattern: &str, text: &str) -> (rest: String)
    ensures
        rest@ == regex_removed(pattern@, text@),
{
    regex::Regex::new(pattern).map_or(text.to_string(), |re| re.replace_all(text, "").to_string())
}

} // verus!
