//! Regular expressions as the configuration uses them: compiled once, matched many times.

use vstd::prelude::*;

verus! {

/// The compiled form of a regular expression.
#[verifier::external_type_specification]
#[verifier::external_body]
pub struct ExRegex(regex::Regex);

/// Whether the regular expression written as `pattern` matches anywhere in `text`.
pub uninterp spec fn regex_is_match(pattern: Seq<char>, text: Seq<char>) -> bool;

/// `text` with every match of the regular expression written as `pattern` replaced by
/// `replacement`, in which `$name` stands for what a capture group matched.
pub uninterp spec fn regex_replace_all(
    pattern: Seq<char>,
    text: Seq<char>,
    replacement: Seq<char>,
) -> Seq<char>;

/// A regular expression together with the text it was compiled from.
///
/// The fields are private and only `compile` makes a value, so `re` always is what
/// `regex::Regex::new` gave for `source`.
pub struct Pattern {
    source: String,
    re: regex::Regex,
}

impl View for Pattern {
    type V = Seq<char>;

    closed spec fn view(&self) -> Seq<char> {
        self.source@
    }
}

/// Calls `regex::Regex::new` with its default limits.
///
/// Claimed: a pattern that comes back was compiled from `source`. Which texts are accepted is the
/// grammar of the `regex` crate and its limit on the memory of the compiled form, which depends on
/// the machine, so nothing is claimed about when `None` comes back.
#[verifier::external_body]
fn compile(source: String) -> (r: Option<Pattern>)
    ensures
        r matches Some(p) ==> p@ == source@,
{
    match regex::Regex::new(source.as_str()) {
        Ok(re) => Some(Pattern { source, re }),
        Err(_) => None,
    }
}

/// Calls `regex::Regex::is_match`.
///
/// Claimed: the answer is a function of the text of the pattern and of the text searched.
#[verifier::external_body]
fn matches_text(pattern: &Pattern, text: &str) -> (r: bool)
    ensures
        r == regex_is_match(pattern@, text@),
{
    pattern.re.is_match(text)
}

/// Calls `regex::Regex::replace_all` with a text as the replacement.
///
/// Claimed: the result is a function of the text of the pattern, the text searched and the
/// replacement, and where there is no match the text comes back unchanged.
#[verifier::external_body]
fn replace_text(pattern: &Pattern, text: &str, replacement: &str) -> (r: String)
    ensures
        r@ == regex_replace_all(pattern@, text@, replacement@),
        !regex_is_match(pattern@, text@) ==> r@ == text@,
{
    pattern.re.replace_all(text, replacement).into_owned()
}

impl Pattern {
    /// The pattern written as `source`, or `None` where it is no regular expression that can be
    /// compiled within the default limits.
    pub fn new(source: String) -> (r: Option<Pattern>)
        ensures
            r matches Some(p) ==> p@ == source@,
    {
        compile(source)
    }

    /// Whether the pattern matches anywhere in `text`.
    pub fn is_match(&self, text: &str) -> (r: bool)
        ensures
            r == regex_is_match(self@, text@),
    {
        matches_text(self, text)
    }

    /// `text` with every match replaced by `replacement`.
    pub fn replace_all(&self, text: &str, replacement: &str) -> (r: String)
        ensures
            r@ == regex_replace_all(self@, text@, replacement@),
            !regex_is_match(self@, text@) ==> r@ == text@,
    {
        replace_text(self, text, replacement)
    }
}

} // verus!
