//! Regular expressions, as the keywords that match names use them.
use vstd::prelude::*;
use fancy_regex::Regex;

verus! {

#[verifier::external_type_specification]
#[verifier::external_body]
pub struct ExRegex(Regex);

/// The text that a regular expression was made from: what `Regex::as_str`
/// gives.
pub uninterp spec fn regex_source(regex: Regex) -> Seq<char>;

/// Whether `Regex::new`, with the engine's own settings, compiles the
/// pattern.
pub uninterp spec fn regex_compiles(pattern: Seq<char>) -> bool;

/// What matching gives for a regular expression that `Regex::new` made from
/// `pattern`, on `text`: whether some part of the text matches, or `None`
/// where the engine gives up.
pub uninterp spec fn regex_outcome(pattern: Seq<char>, text: Seq<char>) -> Option<bool>;

/// `Regex::new`, with the engine's own settings: the regular expression of
/// the pattern, or `None` where the pattern cannot be compiled. The regular
/// expression remembers the pattern it was made from.
#[verifier::external_body]
pub(crate) fn regex_new(pattern: &str) -> (r: Option<Regex>)
    ensures
        r is Some <==> regex_compiles(pattern@),
        r matches Some(regex) ==> regex_source(regex) == pattern@,
{
    Regex::new(pattern).ok()
}

/// `Regex::is_match` on a regular expression that `regex_new` made: the
/// outcome for its pattern and the text.
#[verifier::external_body]
pub(crate) fn regex_is_match(regex: &Regex, text: &str) -> (r: Option<bool>)
    ensures
        r == regex_outcome(regex_source(*regex), text@),
{
    regex.is_match(text).ok()
}

/// A compiled pattern.
#[derive(Debug)]
pub struct Pattern {
    regex: Regex,
}

impl Pattern {
    /// The text of the pattern.
    pub closed spec fn source(&self) -> Seq<char> {
        regex_source(self.regex)
    }

    /// Whether the pattern matches somewhere in `text`. Where the engine
    /// gives up, that counts as no match.
    pub open spec fn matches(&self, text: Seq<char>) -> bool {
        regex_outcome(self.source(), text) == Some(true)
    }

    /// Compiles a pattern; `None` where the engine refuses it.
    pub fn new(pattern: &str) -> (r: Option<Pattern>)
        ensures
            r is Some <==> regex_compiles(pattern@),
            r matches Some(p) ==> p.source() == pattern@,
    {
        match regex_new(pattern) {
            Some(regex) => Some(Pattern { regex }),
            None => None,
        }
    }

    /// Whether the pattern matches somewhere in `text`.
    pub fn is_match(&self, text: &str) -> (r: bool)
        ensures
            r == self.matches(text@),
    {
        match regex_is_match(&self.regex, text) {
            Some(found) => found,
            None => false,
        }
    }
}

} // verus!
