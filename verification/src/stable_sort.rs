//! Stable sorting by a text.

use vstd::prelude::*;

use crate::config::SortOrder;
use crate::text::{comes_before, text_before, text_order_total, text_order_transitive};

verus! {

/// Whether what has key `a` must come before what has key `b`.
pub open spec fn ranks_before(a: Seq<char>, b: Seq<char>, order: SortOrder) -> bool {
    match order {
        SortOrder::Asc => text_before(a, b),
        SortOrder::Desc => text_before(b, a),
    }
}

/// `sorted` with `x` behind the last element that it need not come before.
pub open spec fn inserted<T>(
    sorted: Seq<T>,
    x: T,
    key: spec_fn(T) -> Seq<char>,
    order: SortOrder,
) -> Seq<T>
    decreases sorted.len(),
{
    if sorted.len() == 0 || !ranks_before(key(x), key(sorted.last()), order) {
        sorted.push(x)
    } else {
        inserted(sorted.drop_last(), x, key, order).push(sorted.last())
    }
}

/// `items` sorted by their keys, those with equal keys in the order in which they came.
pub open spec fn stable_sorted<T>(
    items: Seq<T>,
    key: spec_fn(T) -> Seq<char>,
    order: SortOrder,
) -> Seq<T>
    decreases items.len(),
{
    if items.len() == 0 {
        items
    } else {
        inserted(stable_sorted(items.drop_last(), key, order), items.last(), key, order)
    }
}

/// Whether no element must come before one that stands before it.
pub open spec fn is_sorted<T>(
    items: Seq<T>,
    key: spec_fn(T) -> Seq<char>,
    order: SortOrder,
) -> bool {
    forall|i: int, j: int|
        0 <= i < j < items.len() ==> !ranks_before(
            key(#[trigger] items[j]),
            key(#[trigger] items[i]),
            order,
        )
}

/// The elements with that key, in order.
pub open spec fn with_key<T>(
    items: Seq<T>,
    key: spec_fn(T) -> Seq<char>,
    k: Seq<char>,
) -> Seq<T> {
    items.filter(|x: T| key(x) == k)
}

/// The order of keys is total: of two different keys exactly one ranks before the other.
proof fn lemma_rank_total(a: Seq<char>, b: Seq<char>, order: SortOrder)
    ensures
        a == b || ranks_before(a, b, order) || ranks_before(b, a, order),
        !(ranks_before(a, b, order) && ranks_before(b, a, order)),
        !ranks_before(a, a, order),
{
    text_order_total(a, b);
    text_order_total(a, a);
}

/// What does not rank before `b` does not rank before what `b` does not rank before.
proof fn lemma_rank_through(a: Seq<char>, b: Seq<char>, c: Seq<char>, order: SortOrder)
    requires
        !ranks_before(a, b, order),
        !ranks_before(b, c, order),
    ensures
        !ranks_before(a, c, order),
{
    lemma_rank_total(a, b, order);
    lemma_rank_total(b, c, order);
    lemma_rank_total(a, c, order);
    if ranks_before(a, c, order) && a != b && b != c {
        match order {
            SortOrder::Asc => {
                text_order_transitive(c, b, a);
            },
            SortOrder::Desc => {
                text_order_transitive(a, b, c);
            },
        }
    }
}

proof fn lemma_inserted<T>(
    sorted: Seq<T>,
    x: T,
    key: spec_fn(T) -> Seq<char>,
    order: SortOrder,
)
    ensures
        inserted(sorted, x, key, order).len() == sorted.len() + 1,
        inserted(sorted, x, key, order).to_multiset() == sorted.to_multiset().insert(x),
    decreases sorted.len(),
{
    broadcast use vstd::seq_lib::group_to_multiset_ensures;

    if sorted.len() > 0 && ranks_before(key(x), key(sorted.last()), order) {
        lemma_inserted(sorted.drop_last(), x, key, order);
        assert(sorted.drop_last().push(sorted.last()) =~= sorted);
        assert(sorted.drop_last().to_multiset().insert(x).insert(sorted.last())
            =~= sorted.drop_last().to_multiset().insert(sorted.last()).insert(x));
    }
}

proof fn lemma_inserted_is_insert<T>(
    sorted: Seq<T>,
    x: T,
    key: spec_fn(T) -> Seq<char>,
    order: SortOrder,
    p: int,
)
    requires
        0 <= p <= sorted.len(),
        p > 0 ==> !ranks_before(key(x), key(sorted[p - 1]), order),
        forall|i: int|
            p <= i < sorted.len() ==> ranks_before(key(x), key(#[trigger] sorted[i]), order),
    ensures
        inserted(sorted, x, key, order) == sorted.insert(p, x),
    decreases sorted.len(),
{
    if p == sorted.len() {
        assert(sorted.insert(p, x) =~= sorted.push(x));
    } else {
        assert(ranks_before(key(x), key(sorted[sorted.len() - 1]), order));
        let shorter = sorted.drop_last();
        assert forall|i: int| p <= i < shorter.len() implies ranks_before(
            key(x),
            key(#[trigger] shorter[i]),
            order,
        ) by {
            assert(shorter[i] == sorted[i]);
        }
        lemma_inserted_is_insert(shorter, x, key, order, p);
        assert(sorted.insert(p, x) =~= shorter.insert(p, x).push(sorted.last()));
    }
}

/// Where an element belongs in a sorted sequence: what stands before it it need not come before,
/// and what stands behind it it must.
spec fn belongs_at<T>(
    sorted: Seq<T>,
    x: T,
    key: spec_fn(T) -> Seq<char>,
    order: SortOrder,
    p: int,
) -> bool {
    &&& 0 <= p <= sorted.len()
    &&& forall|i: int|
        0 <= i < p ==> !ranks_before(key(x), key(#[trigger] sorted[i]), order)
    &&& forall|i: int|
        p <= i < sorted.len() ==> ranks_before(key(x), key(#[trigger] sorted[i]), order)
}

proof fn lemma_belongs<T>(
    sorted: Seq<T>,
    x: T,
    key: spec_fn(T) -> Seq<char>,
    order: SortOrder,
) -> (p: int)
    requires
        is_sorted(sorted, key, order),
    ensures
        belongs_at(sorted, x, key, order, p),
    decreases sorted.len(),
{
    if sorted.len() == 0 {
        0
    } else {
        let shorter = sorted.drop_last();
        assert(is_sorted(shorter, key, order));
        if ranks_before(key(x), key(sorted.last()), order) {
            let p = lemma_belongs(shorter, x, key, order);
            assert forall|i: int| 0 <= i < p implies !ranks_before(
                key(x),
                key(#[trigger] sorted[i]),
                order,
            ) by {
                assert(shorter[i] == sorted[i]);
            }
            assert forall|i: int| p <= i < sorted.len() implies ranks_before(
                key(x),
                key(#[trigger] sorted[i]),
                order,
            ) by {
                if i < shorter.len() {
                    assert(shorter[i] == sorted[i]);
                }
            }
            p
        } else {
            assert forall|i: int| 0 <= i < sorted.len() implies !ranks_before(
                key(x),
                key(#[trigger] sorted[i]),
                order,
            ) by {
                if i < sorted.len() - 1 {
                    assert(!ranks_before(key(sorted[sorted.len() - 1]), key(sorted[i]), order));
                    lemma_rank_through(key(x), key(sorted.last()), key(sorted[i]), order);
                }
            }
            sorted.len() as int
        }
    }
}

proof fn lemma_insert_sorted<T>(
    sorted: Seq<T>,
    x: T,
    key: spec_fn(T) -> Seq<char>,
    order: SortOrder,
    p: int,
)
    requires
        is_sorted(sorted, key, order),
        belongs_at(sorted, x, key, order, p),
    ensures
        is_sorted(sorted.insert(p, x), key, order),
{
    let result = sorted.insert(p, x);
    assert forall|i: int, j: int| 0 <= i < j < result.len() implies !ranks_before(
        key(#[trigger] result[j]),
        key(#[trigger] result[i]),
        order,
    ) by {
        let a = if i < p {
            sorted[i]
        } else if i == p {
            x
        } else {
            sorted[i - 1]
        };
        let b = if j < p {
            sorted[j]
        } else if j == p {
            x
        } else {
            sorted[j - 1]
        };
        assert(result[i] == a);
        assert(result[j] == b);
        lemma_rank_total(key(a), key(b), order);
    }
}

/// Sorting puts the elements in order.
pub proof fn stable_sorted_is_sorted<T>(
    items: Seq<T>,
    key: spec_fn(T) -> Seq<char>,
    order: SortOrder,
)
    ensures
        is_sorted(stable_sorted(items, key, order), key, order),
    decreases items.len(),
{
    if items.len() > 0 {
        let before = stable_sorted(items.drop_last(), key, order);
        stable_sorted_is_sorted(items.drop_last(), key, order);
        let p = lemma_belongs(before, items.last(), key, order);
        lemma_inserted_is_insert(before, items.last(), key, order, p);
        lemma_insert_sorted(before, items.last(), key, order, p);
    }
}

/// Sorting loses no element and adds none.
pub proof fn stable_sorted_keeps_elements<T>(
    items: Seq<T>,
    key: spec_fn(T) -> Seq<char>,
    order: SortOrder,
)
    ensures
        stable_sorted(items, key, order).len() == items.len(),
        stable_sorted(items, key, order).to_multiset() == items.to_multiset(),
    decreases items.len(),
{
    broadcast use vstd::seq_lib::group_to_multiset_ensures;

    if items.len() > 0 {
        let before = stable_sorted(items.drop_last(), key, order);
        stable_sorted_keeps_elements(items.drop_last(), key, order);
        lemma_inserted(before, items.last(), key, order);
        assert(items.drop_last().push(items.last()) =~= items);
    }
}

proof fn lemma_with_key_push<T>(
    items: Seq<T>,
    x: T,
    key: spec_fn(T) -> Seq<char>,
    k: Seq<char>,
)
    ensures
        with_key(items.push(x), key, k) == if key(x) == k {
            with_key(items, key, k).push(x)
        } else {
            with_key(items, key, k)
        },
{
    reveal(Seq::filter);
    assert(items.push(x).drop_last() =~= items);
}

proof fn lemma_inserted_with_key<T>(
    sorted: Seq<T>,
    x: T,
    key: spec_fn(T) -> Seq<char>,
    order: SortOrder,
    k: Seq<char>,
)
    ensures
        with_key(inserted(sorted, x, key, order), key, k) == with_key(sorted.push(x), key, k),
    decreases sorted.len(),
{
    if sorted.len() > 0 && ranks_before(key(x), key(sorted.last()), order) {
        let shorter = sorted.drop_last();
        let last = sorted.last();
        lemma_inserted_with_key(shorter, x, key, order, k);
        lemma_with_key_push(inserted(shorter, x, key, order), last, key, k);
        lemma_with_key_push(shorter, x, key, k);
        lemma_with_key_push(shorter, last, key, k);
        assert(shorter.push(last) =~= sorted);
        lemma_with_key_push(sorted, x, key, k);
        lemma_rank_total(key(x), key(last), order);
    }
}

/// Sorting keeps elements with equal keys in the order in which they came.
pub proof fn stable_sorted_is_stable<T>(
    items: Seq<T>,
    key: spec_fn(T) -> Seq<char>,
    order: SortOrder,
    k: Seq<char>,
)
    ensures
        with_key(stable_sorted(items, key, order), key, k) == with_key(items, key, k),
    decreases items.len(),
{
    if items.len() > 0 {
        let before = stable_sorted(items.drop_last(), key, order);
        stable_sorted_is_stable(items.drop_last(), key, order, k);
        lemma_inserted_with_key(before, items.last(), key, order, k);
        lemma_with_key_push(before, items.last(), key, k);
        lemma_with_key_push(items.drop_last(), items.last(), key, k);
        assert(items.drop_last().push(items.last()) =~= items);
    }
}

proof fn lemma_with_key_members<T>(items: Seq<T>, key: spec_fn(T) -> Seq<char>, k: Seq<char>)
    ensures
        with_key(items, key, k).len() > 0 ==> exists|i: int|
            0 <= i < items.len() && key(#[trigger] items[i]) == k,
    decreases items.len(),
{
    reveal(Seq::filter);
    if items.len() > 0 && key(items.last()) != k {
        lemma_with_key_members(items.drop_last(), key, k);
        if with_key(items.drop_last(), key, k).len() > 0 {
            let i = choose|i: int|
                0 <= i < items.drop_last().len() && key(#[trigger] items.drop_last()[i]) == k;
            assert(items[i] == items.drop_last()[i]);
        }
    } else if items.len() > 0 {
        assert(items[items.len() - 1] == items.last());
    }
}

proof fn lemma_last_is_greatest<T>(
    a: Seq<T>,
    b: Seq<T>,
    key: spec_fn(T) -> Seq<char>,
    order: SortOrder,
)
    requires
        a.len() > 0,
        is_sorted(b, key, order),
        forall|k: Seq<char>| with_key(a, key, k) == #[trigger] with_key(b, key, k),
    ensures
        b.len() > 0,
        !ranks_before(key(b.last()), key(a.last()), order),
{
    let k = key(a.last());
    assert(a.drop_last().push(a.last()) =~= a);
    lemma_with_key_push(a.drop_last(), a.last(), key, k);
    assert(with_key(b, key, k) == with_key(a, key, k));
    lemma_with_key_members(b, key, k);
    let i = choose|i: int| 0 <= i < b.len() && key(#[trigger] b[i]) == k;
    lemma_rank_total(k, k, order);
    if i < b.len() - 1 {
        assert(!ranks_before(key(b[b.len() - 1]), key(b[i]), order));
    }
}

/// Two sorted sequences that have, for every key, the same elements in the same order are equal.
pub proof fn stable_order_is_unique<T>(
    a: Seq<T>,
    b: Seq<T>,
    key: spec_fn(T) -> Seq<char>,
    order: SortOrder,
)
    requires
        is_sorted(a, key, order),
        is_sorted(b, key, order),
        forall|k: Seq<char>| with_key(a, key, k) == #[trigger] with_key(b, key, k),
    ensures
        a == b,
    decreases a.len(),
{
    if a.len() > 0 {
        lemma_last_is_greatest(a, b, key, order);
        assert forall|k: Seq<char>| with_key(b, key, k) == #[trigger] with_key(a, key, k) by {
            assert(with_key(a, key, k) == with_key(b, key, k));
        }
        lemma_last_is_greatest(b, a, key, order);
        lemma_rank_total(key(a.last()), key(b.last()), order);
        let x = a.drop_last();
        let y = b.drop_last();
        assert(x.push(a.last()) =~= a);
        assert(y.push(b.last()) =~= b);
        let top = key(a.last());
        lemma_with_key_push(x, a.last(), key, top);
        lemma_with_key_push(y, b.last(), key, top);
        assert(with_key(a, key, top) == with_key(b, key, top));
        assert(with_key(a, key, top).last() == a.last());
        assert(with_key(b, key, top).last() == b.last());
        assert forall|k: Seq<char>| with_key(x, key, k) == #[trigger] with_key(y, key, k) by {
            lemma_with_key_push(x, a.last(), key, k);
            lemma_with_key_push(y, b.last(), key, k);
            assert(with_key(a, key, k) == with_key(b, key, k));
            if k == top {
                assert(with_key(a, key, k).drop_last() =~= with_key(x, key, k));
                assert(with_key(b, key, k).drop_last() =~= with_key(y, key, k));
            }
        }
        assert(is_sorted(x, key, order));
        assert(is_sorted(y, key, order));
        stable_order_is_unique(x, y, key, order);
    } else if b.len() > 0 {
        assert forall|k: Seq<char>| with_key(b, key, k) == #[trigger] with_key(a, key, k) by {
            assert(with_key(a, key, k) == with_key(b, key, k));
        }
        lemma_last_is_greatest(b, a, key, order);
    } else {
        assert(a =~= b);
    }
}

/// Sorting what is sorted changes nothing.
pub proof fn stable_sorted_already<T>(
    items: Seq<T>,
    key: spec_fn(T) -> Seq<char>,
    order: SortOrder,
)
    requires
        is_sorted(items, key, order),
    ensures
        stable_sorted(items, key, order) == items,
{
    let sorted = stable_sorted(items, key, order);
    stable_sorted_is_sorted(items, key, order);
    assert forall|k: Seq<char>| with_key(sorted, key, k) == #[trigger] with_key(items, key, k) by {
        stable_sorted_is_stable(items, key, order, k);
    }
    stable_order_is_unique(sorted, items, key, order);
}

/// Sorting elements that stand for others, with the same keys, sorts what they stand for.
proof fn lemma_sorted_image<S, T>(
    items: Seq<S>,
    image: spec_fn(S) -> T,
    inner: spec_fn(S) -> Seq<char>,
    key: spec_fn(T) -> Seq<char>,
    order: SortOrder,
)
    requires
        forall|s: S| inner(s) == key(#[trigger] image(s)),
    ensures
        stable_sorted(items.map_values(image), key, order) == stable_sorted(
            items,
            inner,
            order,
        ).map_values(image),
    decreases items.len(),
{
    if items.len() == 0 {
        assert(items.map_values(image) =~= Seq::<T>::empty());
        assert(stable_sorted(items, inner, order).map_values(image) =~= Seq::<T>::empty());
    } else {
        lemma_sorted_image(items.drop_last(), image, inner, key, order);
        assert(items.map_values(image).drop_last() =~= items.drop_last().map_values(image));
        lemma_inserted_image(
            stable_sorted(items.drop_last(), inner, order),
            items.last(),
            image,
            inner,
            key,
            order,
        );
    }
}

proof fn lemma_inserted_image<S, T>(
    sorted: Seq<S>,
    x: S,
    image: spec_fn(S) -> T,
    inner: spec_fn(S) -> Seq<char>,
    key: spec_fn(T) -> Seq<char>,
    order: SortOrder,
)
    requires
        forall|s: S| inner(s) == key(#[trigger] image(s)),
    ensures
        inserted(sorted.map_values(image), image(x), key, order) == inserted(
            sorted,
            x,
            inner,
            order,
        ).map_values(image),
    decreases sorted.len(),
{
    if sorted.len() == 0 {
        assert(sorted.map_values(image).push(image(x)) =~= sorted.push(x).map_values(image));
    } else {
        let last = sorted.last();
        let shorter = sorted.drop_last();
        assert(sorted.map_values(image).last() == image(last));
        assert(inner(x) == key(image(x)));
        assert(inner(last) == key(image(last)));
        if ranks_before(inner(x), inner(last), order) {
            lemma_inserted_image(shorter, x, image, inner, key, order);
            assert(sorted.map_values(image).drop_last() =~= shorter.map_values(image));
            assert(inserted(shorter, x, inner, order).push(last).map_values(image) =~= inserted(
                shorter,
                x,
                inner,
                order,
            ).map_values(image).push(image(last)));
        } else {
            assert(sorted.map_values(image).push(image(x)) =~= sorted.push(x).map_values(image));
        }
    }
}

/// The numbers below `n`, in order.
pub open spec fn positions(n: nat) -> Seq<int> {
    Seq::new(n, |i: int| i)
}

/// Positions as integers.
pub open spec fn as_positions(order: Seq<usize>) -> Seq<int> {
    order.map_values(|i: usize| i as int)
}

/// Whether what has key `a` must come before what has key `b`.
fn must_precede(a: &String, b: &String, order: SortOrder) -> (r: bool)
    ensures
        r == ranks_before(a@, b@, order),
{
    match order {
        SortOrder::Asc => comes_before(a.as_str(), b.as_str()),
        SortOrder::Desc => comes_before(b.as_str(), a.as_str()),
    }
}

/// Where the element at position `x` belongs among the sorted positions.
fn find_place(
    sorted: &Vec<usize>,
    x: usize,
    keys: &Vec<String>,
    order: SortOrder,
    Ghost(key): Ghost<spec_fn(int) -> Seq<char>>,
) -> (p: usize)
    requires
        x < keys@.len(),
        forall|i: int| 0 <= i < sorted@.len() ==> #[trigger] sorted@[i] < keys@.len(),
        forall|i: int| 0 <= i < keys@.len() ==> key(i) == (#[trigger] keys@[i])@,
        is_sorted(as_positions(sorted@), key, order),
    ensures
        belongs_at(as_positions(sorted@), x as int, key, order, p as int),
{
    let ghost all = as_positions(sorted@);
    let mut low: usize = 0;
    let mut high: usize = sorted.len();
    while low < high
        invariant
            0 <= low <= high <= sorted@.len(),
            all == as_positions(sorted@),
            x < keys@.len(),
            forall|i: int| 0 <= i < sorted@.len() ==> #[trigger] sorted@[i] < keys@.len(),
            forall|i: int| 0 <= i < keys@.len() ==> key(i) == (#[trigger] keys@[i])@,
            is_sorted(all, key, order),
            forall|i: int|
                0 <= i < low ==> !ranks_before(key(x as int), key(#[trigger] all[i]), order),
            forall|i: int|
                high <= i < all.len() ==> ranks_before(
                    key(x as int),
                    key(#[trigger] all[i]),
                    order,
                ),
        decreases high - low,
    {
        let middle: usize = low + (high - low) / 2;
        let at: usize = sorted[middle];
        assert(all[middle as int] == at);
        assert(key(x as int) == keys@[x as int]@);
        assert(key(at as int) == keys@[at as int]@);
        if must_precede(&keys[x], &keys[at], order) {
            assert forall|i: int| middle <= i < all.len() implies ranks_before(
                key(x as int),
                key(#[trigger] all[i]),
                order,
            ) by {
                if i > middle && !ranks_before(key(x as int), key(all[i]), order) {
                    assert(!ranks_before(key(all[i]), key(all[middle as int]), order));
                    lemma_rank_through(key(x as int), key(all[i]), key(at as int), order);
                }
            }
            high = middle;
        } else {
            assert forall|i: int| 0 <= i < middle + 1 implies !ranks_before(
                key(x as int),
                key(#[trigger] all[i]),
                order,
            ) by {
                if i < middle {
                    assert(!ranks_before(key(all[middle as int]), key(all[i]), order));
                    lemma_rank_through(key(x as int), key(at as int), key(all[i]), order);
                }
            }
            low = middle + 1;
        }
    }
    low
}

/// The positions of the elements in sorted order, from the keys of the elements.
fn sorted_positions(
    keys: &Vec<String>,
    order: SortOrder,
    Ghost(key): Ghost<spec_fn(int) -> Seq<char>>,
) -> (r: Vec<usize>)
    requires
        forall|i: int| 0 <= i < keys@.len() ==> key(i) == (#[trigger] keys@[i])@,
    ensures
        as_positions(r@) == stable_sorted(positions(keys@.len()), key, order),
        r@.len() == keys@.len(),
        forall|i: int| 0 <= i < r@.len() ==> #[trigger] r@[i] < keys@.len(),
        r@.no_duplicates(),
{
    let mut sorted: Vec<usize> = Vec::new();
    let mut x: usize = 0;
    assert(positions(0) =~= Seq::<int>::empty());
    assert(as_positions(sorted@) =~= Seq::<int>::empty());
    while x < keys.len()
        invariant
            x <= keys@.len(),
            sorted@.len() == x,
            forall|i: int| 0 <= i < keys@.len() ==> key(i) == (#[trigger] keys@[i])@,
            forall|i: int| 0 <= i < sorted@.len() ==> #[trigger] sorted@[i] < x,
            sorted@.no_duplicates(),
            as_positions(sorted@) == stable_sorted(positions(x as nat), key, order),
        decreases keys.len() - x,
    {
        proof {
            stable_sorted_is_sorted(positions(x as nat), key, order);
        }
        let p: usize = find_place(&sorted, x, keys, order, Ghost(key));
        let ghost before = sorted@;
        sorted.insert(p, x);
        proof {
            lemma_inserted_is_insert(as_positions(before), x as int, key, order, p as int);
            assert(positions((x + 1) as nat).drop_last() =~= positions(x as nat));
            assert(as_positions(sorted@) =~= as_positions(before).insert(p as int, x as int));
            assert forall|i: int| 0 <= i < sorted@.len() implies #[trigger] sorted@[i] < x + 1 by {
                if i < p {
                    assert(sorted@[i] == before[i]);
                } else if i > p {
                    assert(sorted@[i] == before[i - 1]);
                }
            }
            assert forall|i: int, j: int|
                0 <= i < sorted@.len() && 0 <= j < sorted@.len() && i != j implies sorted@[i]
                != sorted@[j] by {
                let a = if i < p {
                    i
                } else {
                    i - 1
                };
                let b = if j < p {
                    j
                } else {
                    j - 1
                };
                if i != p {
                    assert(sorted@[i] == before[a]);
                }
                if j != p {
                    assert(sorted@[j] == before[b]);
                }
            }
        }
        x = x + 1;
    }
    sorted
}

/// Puts the elements into the order that the positions give.
fn arrange<T>(items: &mut Vec<T>, order: &Vec<usize>)
    requires
        order@.len() == old(items)@.len(),
        forall|i: int| 0 <= i < order@.len() ==> #[trigger] order@[i] < old(items)@.len(),
        order@.no_duplicates(),
    ensures
        final(items)@ == order@.map_values(|i: usize| old(items)@[i as int]),
{
    let ghost all = items@;
    let count: usize = items.len();
    let mut slots: Vec<Option<T>> = Vec::new();
    while items.len() > 0
        invariant
            items@.len() + slots@.len() == all.len(),
            items@ == all.take(items@.len() as int),
            forall|i: int|
                0 <= i < slots@.len() ==> (#[trigger] slots@[i]) == Some(all[all.len() - 1 - i]),
        decreases items@.len(),
    {
        let item = items.pop();
        slots.push(item);
    }
    let mut k: usize = 0;
    while k < order.len()
        invariant
            k <= order@.len(),
            order@.len() == all.len(),
            count == all.len(),
            slots@.len() == all.len(),
            items@.len() == k,
            forall|i: int| 0 <= i < order@.len() ==> #[trigger] order@[i] < all.len(),
            order@.no_duplicates(),
            forall|i: int| 0 <= i < k ==> items@[i] == all[#[trigger] order@[i] as int],
            forall|i: int|
                k <= i < order@.len() ==> slots@[count - 1 - #[trigger] order@[i]] == Some(
                    all[order@[i] as int],
                ),
        decreases order.len() - k,
    {
        let slot: usize = count - 1 - order[k];
        let taken = slots[slot].take();
        match taken {
            Some(item) => {
                items.push(item);
            },
            None => {
                assert(false);
            },
        }
        k = k + 1;
    }
    assert(items@ =~= order@.map_values(|i: usize| all[i as int]));
}

/// Sorts elements by keys that are given beside them; `view` and `key` say what an element holds
/// and what its key is.
pub(crate) fn sort_by_keys<T, V>(
    items: &mut Vec<T>,
    keys: &Vec<String>,
    order: SortOrder,
    Ghost(view): Ghost<spec_fn(T) -> V>,
    Ghost(key): Ghost<spec_fn(V) -> Seq<char>>,
)
    requires
        keys@.len() == old(items)@.len(),
        forall|i: int|
            0 <= i < keys@.len() ==> (#[trigger] keys@[i])@ == key(view(old(items)@[i])),
    ensures
        final(items)@.map_values(view) == stable_sorted(
            old(items)@.map_values(view),
            key,
            order,
        ),
{
    let ghost all = items@;
    let ghost image = |i: int| view(all[i]);
    let ghost inner = |i: int| key(view(all[i]));
    let order_of: Vec<usize> = sorted_positions(keys, order, Ghost(inner));
    arrange(items, &order_of);
    proof {
        lemma_sorted_image(positions(keys@.len()), image, inner, key, order);
        assert(positions(keys@.len()).map_values(image) =~= all.map_values(view));
        assert(as_positions(order_of@).map_values(image) =~= items@.map_values(view));
    }
}

} // verus!
