use vstd::prelude::*;

verus! {

#[verifier::external_type_specification]
#[verifier::external_body]
pub struct ExRegex(regex::Regex);

/// Whether the regex engine accepts a pattern.
pub uninterp spec fn regex_accepts(pattern: Seq<char>) -> bool;

/// Whether a pattern matches somewhere in a text.
pub uninterp spec fn regex_finds(pattern: Seq<char>, text: Seq<char>) -> bool;

/// The text of a capture group of the leftmost-first match of a pattern in a
/// text; `None` when there is no match or the group took no part in it.
pub uninterp spec fn regex_group(pattern: Seq<char>, text: Seq<char>, group: nat) -> Option<Seq<char>>;

/// Relies on `regex::Regex::new`: whether it succeeds depends on the pattern alone.
#[verifier::external_body]
fn build_regex(pattern: &str) -> (r: Option<regex::Regex>)
    ensures
        r is Some <==> regex_accepts(pattern@),
{
    regex::Regex::new(pattern).ok()
}

/// A regular expression together with the pattern it was built from.
///
/// The fields are private and the only constructor builds the regex from
/// the pattern it stores, so the two always agree.
#[derive(Debug)]
pub struct Pattern {
    source: String,
    regex: regex::Regex,
}

impl View for Pattern {
    type V = Seq<char>;

    closed spec fn view(&self) -> Seq<char> {
        self.source@
    }
}

impl Pattern {
    /// Builds the regex for `source`; `None` when the engine rejects it.
    pub fn new(source: &str) -> (r: Option<Pattern>)
        ensures
            r is Some <==> regex_accepts(source@),
            r is Some ==> r->0@ == source@,
    {
        match build_regex(source) {
            Some(regex) => Some(Pattern { source: crate::text::owned(source), regex }),
            None => None,
        }
    }

    /// The pattern text.
    pub fn source(&self) -> (r: &str)
        ensures
            r@ == self@,
    {
        self.source.as_str()
    }

    /// Relies on `regex::Regex::is_match` of the regex built from this pattern.
    #[verifier::external_body]
    pub(crate) fn is_match(&self, text: &str) -> (r: bool)
        ensures
            r == regex_finds(self@, text@),
    {
        self.regex.is_match(text)
    }

    /// Relies on `regex::Regex::captures` of the regex built from this
    /// pattern, then `Captures::get` of the group.
    #[verifier::external_body]
    pub(crate) fn capture(&self, text: &str, group: usize) -> (r: Option<String>)
        ensures
            r is Some <==> regex_group(self@, text@, group as nat) is Some,
            r is Some ==> r->0@ == regex_group(self@, text@, group as nat)->0,
    {
        self.regex.captures(text).and_then(|c| c.get(group)).map(|m| m.as_str().to_string())
    }
}

} // verus!
