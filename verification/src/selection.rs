//! Going through the selected ones of a list, one after the other.

use vstd::prelude::*;

verus! {

/// The first selected position from `from` on; the number of positions where there is none.
pub open spec fn next_selected(selected: Seq<bool>, from: int) -> int
    decreases selected.len() - from,
{
    if from >= selected.len() || selected[from] {
        from
    } else {
        next_selected(selected, from + 1)
    }
}

/// The selected positions before `end`, in order.
pub open spec fn selected_before(selected: Seq<bool>, end: int) -> Seq<int>
    decreases end,
{
    if end <= 0 {
        Seq::empty()
    } else if selected[end - 1] {
        selected_before(selected, end - 1).push(end - 1)
    } else {
        selected_before(selected, end - 1)
    }
}

/// All selected positions, in order.
pub open spec fn all_selected(selected: Seq<bool>) -> Seq<int> {
    selected_before(selected, selected.len() as int)
}

/// The position after a number of steps, of which each goes to the next selected position.
pub open spec fn position_after(selected: Seq<bool>, steps: nat) -> int
    decreases steps,
{
    if steps == 0 {
        next_selected(selected, 0)
    } else {
        next_selected(selected, position_after(selected, (steps - 1) as nat) + 1)
    }
}

/// The next selected position is selected, and no position that was passed over is.
pub proof fn next_selected_is_first(selected: Seq<bool>, from: int)
    requires
        0 <= from <= selected.len(),
    ensures
        from <= next_selected(selected, from) <= selected.len(),
        next_selected(selected, from) < selected.len() ==> selected[next_selected(selected, from)],
        forall|i: int| from <= i < next_selected(selected, from) ==> !#[trigger] selected[i],
    decreases selected.len() - from,
{
    if from < selected.len() && !selected[from] {
        next_selected_is_first(selected, from + 1);
    }
}

/// The selected positions are exactly those that are selected, each once and in order.
pub proof fn selected_before_are(selected: Seq<bool>, end: int)
    requires
        0 <= end <= selected.len(),
    ensures
        forall|p: int|
            #[trigger] selected_before(selected, end).contains(p) <==> 0 <= p < end && selected[p],
        forall|i: int, j: int|
            0 <= i < j < selected_before(selected, end).len() ==> (#[trigger] selected_before(
                selected,
                end,
            )[i]) < #[trigger] selected_before(selected, end)[j],
    decreases end,
{
    if end > 0 {
        let before = selected_before(selected, end - 1);
        let all = selected_before(selected, end);
        selected_before_are(selected, end - 1);
        assert forall|p: int| #[trigger] all.contains(p) <==> 0 <= p < end && selected[p] by {
            if all.contains(p) {
                let i = choose|i: int| 0 <= i < all.len() && all[i] == p;
                if i < before.len() {
                    assert(before.contains(before[i]));
                }
            }
            if 0 <= p < end && selected[p] {
                if p == end - 1 {
                    assert(all[before.len() as int] == p);
                } else {
                    assert(before.contains(p));
                    let i = choose|i: int| 0 <= i < before.len() && before[i] == p;
                    assert(all[i] == p);
                }
            }
        }
        assert forall|i: int, j: int| 0 <= i < j < all.len() implies (#[trigger] all[i])
            < #[trigger] all[j] by {
            assert(before.contains(before[i]));
        }
    }
}

proof fn lemma_nothing_between(selected: Seq<bool>, a: int, b: int)
    requires
        0 <= a <= b <= selected.len(),
        forall|i: int| a <= i < b ==> !#[trigger] selected[i],
    ensures
        selected_before(selected, b) == selected_before(selected, a),
    decreases b - a,
{
    if a < b {
        assert(!selected[b - 1]);
        lemma_nothing_between(selected, a, b - 1);
    }
}

proof fn lemma_selected_prefix(selected: Seq<bool>, a: int, b: int)
    requires
        0 <= a <= b <= selected.len(),
    ensures
        selected_before(selected, a).len() <= selected_before(selected, b).len(),
        forall|i: int|
            0 <= i < selected_before(selected, a).len() ==> #[trigger] selected_before(
                selected,
                a,
            )[i] == selected_before(selected, b)[i],
    decreases b - a,
{
    if a < b {
        lemma_selected_prefix(selected, a, b - 1);
    }
}

/// Stepping from one selected position to the next meets all of them, in order, and then ends.
pub proof fn steps_meet_all_selected(selected: Seq<bool>, steps: nat)
    requires
        steps <= all_selected(selected).len(),
    ensures
        position_after(selected, steps) == (if steps < all_selected(selected).len() {
            all_selected(selected)[steps as int]
        } else {
            selected.len() as int
        }),
        selected_before(selected, position_after(selected, steps)) == all_selected(selected).take(
            steps as int,
        ),
        0 <= position_after(selected, steps) <= selected.len(),
    decreases steps,
{
    let all = all_selected(selected);
    let n = selected.len() as int;
    let start = if steps == 0 {
        0
    } else {
        position_after(selected, (steps - 1) as nat) + 1
    };
    if steps > 0 {
        steps_meet_all_selected(selected, (steps - 1) as nat);
        selected_before_are(selected, n);
        assert(all.contains(all[steps - 1]));
        assert(selected_before(selected, start) =~= all.take(steps as int));
    } else {
        assert(selected_before(selected, start) =~= all.take(0));
    }
    next_selected_is_first(selected, start);
    let at = next_selected(selected, start);
    lemma_nothing_between(selected, start, at);
    if at < n {
        lemma_selected_prefix(selected, at + 1, n);
        assert(selected_before(selected, at + 1)[steps as int] == at);
    } else {
        assert(all.take(steps as int) =~= all);
    }
}

} // verus!
