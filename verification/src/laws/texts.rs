//! Texts: their order, their case, numbers in decimal, and joining.

use vstd::prelude::*;
use vstd::utf8::encode_utf8;

use crate::text::{
    ascii_lower, bytes_before, decimal, equal_ignoring_case, joined, text_before, texts_view,
};
use crate::transliterate::{ascii_form, comparable};

verus! {

/// Two texts are in the order of the first bytes in which they differ, and a text comes before the
/// texts that go on where it ends.
pub proof fn first_difference_decides(a: Seq<char>, b: Seq<char>, k: int)
    requires
        0 <= k <= encode_utf8(a).len(),
        k <= encode_utf8(b).len(),
        encode_utf8(a).take(k) == encode_utf8(b).take(k),
    ensures
        k < encode_utf8(a).len() && k < encode_utf8(b).len() && encode_utf8(a)[k] != encode_utf8(
            b,
        )[k] ==> (text_before(a, b) <==> encode_utf8(a)[k] < encode_utf8(b)[k]),
        k == encode_utf8(a).len() ==> (text_before(a, b) <==> k < encode_utf8(b).len()),
        k == encode_utf8(b).len() ==> !text_before(a, b),
{
    lemma_difference_of_bytes(encode_utf8(a), encode_utf8(b), k);
}

proof fn lemma_difference_of_bytes(a: Seq<u8>, b: Seq<u8>, k: int)
    requires
        0 <= k <= a.len(),
        k <= b.len(),
        a.take(k) == b.take(k),
    ensures
        k < a.len() && k < b.len() && a[k] != b[k] ==> (bytes_before(a, b) <==> a[k] < b[k]),
        k == a.len() ==> (bytes_before(a, b) <==> k < b.len()),
        k == b.len() ==> !bytes_before(a, b),
    decreases a.len(),
{
    if k > 0 {
        let x = a.drop_first();
        let y = b.drop_first();
        assert(a[0] == a.take(k)[0] && b[0] == b.take(k)[0]);
        assert(x.take(k - 1) =~= a.take(k).drop_first());
        assert(y.take(k - 1) =~= b.take(k).drop_first());
        lemma_difference_of_bytes(x, y, k - 1);
    }
}

/// Whether a character is an upper case ASCII letter and another its lower case.
pub open spec fn is_case_pair(upper: char, lower: char) -> bool {
    &&& 'A' <= upper <= 'Z'
    &&& lower as u32 == upper as u32 + 32
}

/// Two texts are equal up to case exactly where they have the same length and differ at no position
/// but in the case of an ASCII letter.
pub proof fn only_case_may_differ(a: Seq<char>, b: Seq<char>)
    ensures
        equal_ignoring_case(a, b) <==> a.len() == b.len() && forall|i: int|
            0 <= i < a.len() ==> (#[trigger] a[i] == b[i] || is_case_pair(a[i], b[i])
                || is_case_pair(b[i], a[i])),
{
    assert forall|x: char, y: char|
        #![trigger ascii_lower(x), ascii_lower(y)]
        ascii_lower(x) == ascii_lower(y) <==> x == y || is_case_pair(x, y) || is_case_pair(
            y,
            x,
        ) by {
        assert('A' <= x <= 'Z' ==> ascii_lower(x) as u32 == x as u32 + 32);
        assert('A' <= y <= 'Z' ==> ascii_lower(y) as u32 == y as u32 + 32);
    }
    if equal_ignoring_case(a, b) {
        assert forall|i: int| 0 <= i < a.len() implies (#[trigger] a[i] == b[i] || is_case_pair(
            a[i],
            b[i],
        ) || is_case_pair(b[i], a[i])) by {
            assert(ascii_lower(a[i]) == ascii_lower(b[i]));
        }
    }
}

/// The number that a list of digits spells.
pub open spec fn spelled(digits: Seq<char>) -> int
    decreases digits.len(),
{
    if digits.len() == 0 {
        0
    } else {
        spelled(digits.drop_last()) * 10 + (digits.last() as int - '0' as int)
    }
}

/// The decimal digits of a number spell it, are all digits, and start with 0 for the number 0
/// alone.
pub proof fn decimal_spells_the_number(n: nat)
    ensures
        spelled(decimal(n)) == n,
        decimal(n).len() > 0,
        forall|i: int| 0 <= i < decimal(n).len() ==> '0' <= #[trigger] decimal(n)[i] <= '9',
        decimal(n)[0] == '0' ==> n == 0 && decimal(n).len() == 1,
    decreases n,
{
    let last = (48 + n % 10) as char;
    assert(last as int == 48 + n % 10);
    if n >= 10 {
        let before = decimal(n / 10);
        decimal_spells_the_number(n / 10);
        assert(decimal(n).drop_last() =~= before);
        assert(decimal(n)[0] == before[0]);
        assert forall|i: int| 0 <= i < decimal(n).len() implies '0' <= #[trigger] decimal(n)[i]
            <= '9' by {
            if i < before.len() {
                assert(decimal(n)[i] == before[i]);
            }
        }
    } else {
        assert(decimal(n).drop_last() =~= Seq::<char>::empty());
        assert(spelled(Seq::<char>::empty()) == 0);
    }
}

/// Joining puts nothing around a single text, and one separator between two lists.
pub proof fn joining_separates(a: Seq<Seq<char>>, b: Seq<Seq<char>>, separator: Seq<char>)
    ensures
        joined(Seq::empty(), separator) == Seq::<char>::empty(),
        a.len() == 1 ==> joined(a, separator) == a[0],
        a.len() > 0 && b.len() > 0 ==> joined(a + b, separator) == joined(a, separator) + separator
            + joined(b, separator),
    decreases b.len(),
{
    if a.len() > 0 && b.len() > 0 {
        assert((a + b).drop_last() =~= a + b.drop_last());
        assert((a + b).last() == b.last());
        if b.len() == 1 {
            assert(a + b.drop_last() =~= a);
            assert(joined(a + b, separator) =~= joined(a, separator) + separator + b[0]);
        } else {
            joining_separates(a, b.drop_last(), separator);
            assert(joined(a + b, separator) =~= joined(a, separator) + separator + joined(
                b,
                separator,
            ));
        }
    }
}

/// A list of texts is seen text by text.
pub proof fn texts_are_seen_one_by_one(texts: Seq<String>)
    ensures
        texts_view(texts).len() == texts.len(),
        forall|i: int| 0 <= i < texts.len() ==> #[trigger] texts_view(texts)[i] == texts[i]@,
{
}

/// A text is compared by its ASCII form exactly where that is asked for.
pub proof fn ascii_forms_are_compared_where_asked_for(text: Seq<char>)
    ensures
        comparable(text, true) == ascii_form(text),
        comparable(text, false) == text,
{
}

} // verus!
