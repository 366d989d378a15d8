//! The ASCII form of a text, for comparing and matching names written in any script.

use vstd::prelude::*;
use vstd::utf8::is_ascii_chars;

verus! {

/// The ASCII transliteration of `text`.
pub uninterp spec fn ascii_form(text: Seq<char>) -> Seq<char>;

/// Calls `unidecode::unidecode`.
///
/// Claimed: the result is a function of the text, holds ASCII characters only, and is the text
/// itself where that is ASCII already.
#[verifier::external_body]
fn unidecode_text(text: &str) -> (r: String)
    ensures
        r@ == ascii_form(text@),
        is_ascii_chars(r@),
        is_ascii_chars(text@) ==> r@ == text@,
{
    unidecode::unidecode(text)
}

/// The text that stands for `text` in a comparison: its ASCII form if `as_ascii`, else itself.
pub open spec fn comparable(text: Seq<char>, as_ascii: bool) -> Seq<char> {
    if as_ascii {
        ascii_form(text)
    } else {
        text
    }
}

/// The text that stands for `text` in a comparison.
pub fn comparable_text(text: &String, as_ascii: bool) -> (r: String)
    ensures
        r@ == comparable(text@, as_ascii),
        as_ascii ==> is_ascii_chars(r@),
        is_ascii_chars(text@) ==> r@ == text@,
{
    if as_ascii {
        unidecode_text(text.as_str())
    } else {
        text.clone()
    }
}

} // verus!
