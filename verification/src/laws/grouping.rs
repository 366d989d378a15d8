//! Regrouping: the order of the groups, and the numbers that they have.

use vstd::prelude::*;

use crate::playlist::{all_channels, channel_count, ChannelView, GroupView};
use crate::regroup::{
    max_id, numbers_left, placed, placed_channels, placed_playlist, placed_playlist_bounds,
    position_of_title, position_of_title_is_first, regrouped, unnumbered,
};

verus! {

/// Whether a channel of the group names that title.
pub open spec fn names(group: GroupView, title: Seq<char>) -> bool {
    exists|m: int| 0 <= m < group.channels.len() && (#[trigger] group.channels[m]).group == title
}

/// Whether a channel of the playlist names that title.
pub open spec fn is_named(playlist: Seq<GroupView>, title: Seq<char>) -> bool {
    exists|k: int| 0 <= k < playlist.len() && names(#[trigger] playlist[k], title)
}

/// The number that is kept for a title: that of the first group with a channel that names it, where
/// that group has the title itself, and else 0, for none.
pub open spec fn kept_number(playlist: Seq<GroupView>, title: Seq<char>) -> u32
    decreases playlist.len(),
{
    if playlist.len() == 0 {
        0
    } else if names(playlist[0], title) {
        if playlist[0].title == title {
            playlist[0].id
        } else {
            0
        }
    } else {
        kept_number(playlist.drop_first(), title)
    }
}

proof fn lemma_kept_push(playlist: Seq<GroupView>, group: GroupView, title: Seq<char>)
    ensures
        is_named(playlist, title) ==> kept_number(playlist.push(group), title) == kept_number(
            playlist,
            title,
        ),
        !is_named(playlist, title) ==> kept_number(playlist.push(group), title) == (if names(
            group,
            title,
        ) && group.title == title {
            group.id
        } else {
            0
        }),
        is_named(playlist.push(group), title) <==> is_named(playlist, title) || names(group, title),
    decreases playlist.len(),
{
    let longer = playlist.push(group);
    if is_named(playlist, title) {
        let k = choose|k: int| 0 <= k < playlist.len() && names(#[trigger] playlist[k], title);
        assert(names(longer[k], title));
    }
    if names(group, title) {
        assert(names(longer[playlist.len() as int], title));
    }
    if is_named(longer, title) && !names(group, title) {
        let k = choose|k: int| 0 <= k < longer.len() && names(#[trigger] longer[k], title);
        assert(names(playlist[k], title));
    }
    if playlist.len() == 0 {
        assert(longer.drop_first() =~= Seq::<GroupView>::empty());
        assert(kept_number(Seq::<GroupView>::empty(), title) == 0);
    } else {
        let rest = playlist.drop_first();
        assert(longer.drop_first() =~= rest.push(group));
        lemma_kept_push(rest, group, title);
        if !names(playlist[0], title) {
            if is_named(playlist, title) {
                let k = choose|k: int|
                    0 <= k < playlist.len() && names(#[trigger] playlist[k], title);
                assert(names(rest[k - 1], title));
            }
            if is_named(rest, title) {
                let k = choose|k: int| 0 <= k < rest.len() && names(#[trigger] rest[k], title);
                assert(names(playlist[k + 1], title));
            }
        } else {
            assert(names(longer[0], title));
        }
    }
}

/// Whether the groups are those that are named, with the numbers that are kept for them.
spec fn keeps_numbers(groups: Seq<GroupView>, playlist: Seq<GroupView>) -> bool {
    &&& forall|i: int|
        0 <= i < groups.len() ==> is_named(playlist, (#[trigger] groups[i]).title) && groups[i].id
            == kept_number(playlist, groups[i].title)
    &&& forall|t: Seq<char>| #[trigger]
        is_named(playlist, t) ==> exists|i: int|
            0 <= i < groups.len() && (#[trigger] groups[i]).title == t
}

spec fn first_of(source: GroupView, count: nat) -> GroupView {
    GroupView { channels: source.channels.take(count as int), ..source }
}

proof fn lemma_placed_keeps(
    groups: Seq<GroupView>,
    base: Seq<GroupView>,
    source: GroupView,
    count: nat,
)
    requires
        count < source.channels.len(),
        keeps_numbers(groups, base.push(first_of(source, count))),
    ensures
        keeps_numbers(
            placed(groups, source, source.channels[count as int]),
            base.push(first_of(source, count + 1)),
        ),
{
    let channel = source.channels[count as int];
    let old_source = first_of(source, count);
    let new_source = first_of(source, count + 1);
    let before = base.push(old_source);
    let after = base.push(new_source);
    let result = placed(groups, source, channel);
    assert forall|t: Seq<char>| names(new_source, t) <==> #[trigger] names(old_source, t)
        || channel.group == t by {
        if names(old_source, t) {
            let m = choose|m: int|
                0 <= m < old_source.channels.len() && (#[trigger] old_source.channels[m]).group
                    == t;
            assert(new_source.channels[m].group == t);
        }
        if channel.group == t {
            assert(new_source.channels[count as int].group == t);
        }
        if names(new_source, t) {
            let m = choose|m: int|
                0 <= m < new_source.channels.len() && (#[trigger] new_source.channels[m]).group
                    == t;
            if m < count {
                assert(old_source.channels[m].group == t);
            }
        }
    }
    assert forall|t: Seq<char>|
        (#[trigger] is_named(after, t) <==> is_named(before, t) || t == channel.group) && (is_named(
            before,
            t,
        ) ==> kept_number(after, t) == kept_number(before, t)) by {
        lemma_kept_push(base, old_source, t);
        lemma_kept_push(base, new_source, t);
        assert(names(new_source, t) <==> names(old_source, t) || channel.group == t);
    }
    position_of_title_is_first(groups, channel.group);
    let at = position_of_title(groups, channel.group);
    assert forall|i: int| 0 <= i < result.len() implies is_named(
        after,
        (#[trigger] result[i]).title,
    ) && result[i].id == kept_number(after, result[i].title) by {
        if i < groups.len() {
            assert(result[i].title == groups[i].title && result[i].id == groups[i].id);
            assert(is_named(before, groups[i].title));
        } else {
            lemma_kept_push(base, old_source, channel.group);
            lemma_kept_push(base, new_source, channel.group);
            assert(names(new_source, channel.group) <==> names(old_source, channel.group)
                || channel.group == channel.group);
            if is_named(before, channel.group) {
                let j = choose|j: int|
                    0 <= j < groups.len() && (#[trigger] groups[j]).title == channel.group;
                assert(groups[j].title != channel.group);
            }
        }
    }
    assert forall|t: Seq<char>| #[trigger] is_named(after, t) implies exists|i: int|
        0 <= i < result.len() && (#[trigger] result[i]).title == t by {
        if is_named(before, t) {
            let j = choose|j: int| 0 <= j < groups.len() && (#[trigger] groups[j]).title == t;
            assert(result[j].title == t);
        } else {
            assert(result[at].title == t);
        }
    }
}

proof fn lemma_placed_channels_keep(
    groups: Seq<GroupView>,
    base: Seq<GroupView>,
    source: GroupView,
    count: nat,
)
    requires
        count <= source.channels.len(),
        keeps_numbers(groups, base),
    ensures
        keeps_numbers(
            placed_channels(groups, source, count),
            base.push(first_of(source, count)),
        ),
    decreases count,
{
    if count == 0 {
        let empty = first_of(source, 0);
        assert forall|t: Seq<char>|
            (#[trigger] is_named(base.push(empty), t) <==> is_named(base, t)) && kept_number(
                base.push(empty),
                t,
            ) == (if is_named(base, t) {
                kept_number(base, t)
            } else {
                0
            }) by {
            lemma_kept_push(base, empty, t);
            assert(!names(empty, t));
        }
        assert forall|i: int| 0 <= i < groups.len() implies is_named(
            base.push(empty),
            (#[trigger] groups[i]).title,
        ) && groups[i].id == kept_number(base.push(empty), groups[i].title) by {
            assert(is_named(base, groups[i].title));
            assert(is_named(base.push(empty), groups[i].title));
        }
    } else {
        lemma_placed_channels_keep(groups, base, source, (count - 1) as nat);
        lemma_placed_keeps(
            placed_channels(groups, source, (count - 1) as nat),
            base,
            source,
            (count - 1) as nat,
        );
    }
}

proof fn lemma_placed_playlist_keeps(playlist: Seq<GroupView>)
    ensures
        keeps_numbers(placed_playlist(playlist), playlist),
    decreases playlist.len(),
{
    if playlist.len() > 0 {
        let base = playlist.drop_last();
        let source = playlist.last();
        lemma_placed_playlist_keeps(base);
        lemma_placed_channels_keep(
            placed_playlist(base),
            base,
            source,
            source.channels.len(),
        );
        assert(source.channels.take(source.channels.len() as int) =~= source.channels);
        assert(first_of(source, source.channels.len()) == source);
        assert(base.push(source) =~= playlist);
    }
}

proof fn lemma_max_is_reached(groups: Seq<GroupView>)
    ensures
        forall|i: int| 0 <= i < groups.len() ==> (#[trigger] groups[i]).id <= max_id(groups),
        max_id(groups) == 0 || exists|i: int|
            0 <= i < groups.len() && (#[trigger] groups[i]).id == max_id(groups),
    decreases groups.len(),
{
    if groups.len() > 0 {
        let shorter = groups.drop_last();
        lemma_max_is_reached(shorter);
        assert forall|i: int| 0 <= i < groups.len() implies (#[trigger] groups[i]).id <= max_id(
            groups,
        ) by {
            if i < shorter.len() {
                assert(shorter[i] == groups[i]);
            }
        }
        if max_id(groups) == max_id(shorter) && max_id(shorter) != 0 {
            let i = choose|i: int|
                0 <= i < shorter.len() && (#[trigger] shorter[i]).id == max_id(shorter);
            assert(groups[i].id == max_id(groups));
        } else {
            assert(groups[groups.len() - 1].id == groups.last().id);
        }
    }
}

/// The largest number is that of a group, or 0, and no group has a larger one; the groups without a
/// number are those of number 0.
pub proof fn largest_and_missing_numbers(groups: Seq<GroupView>)
    ensures
        forall|i: int| 0 <= i < groups.len() ==> (#[trigger] groups[i]).id <= max_id(groups),
        max_id(groups) == 0 || exists|i: int|
            0 <= i < groups.len() && (#[trigger] groups[i]).id == max_id(groups),
        unnumbered(groups) == groups.filter(|g: GroupView| g.id == 0).len(),
    decreases groups.len(),
{
    lemma_max_is_reached(groups);
    reveal(Seq::filter);
    if groups.len() > 0 {
        largest_and_missing_numbers(groups.drop_last());
    }
}

proof fn lemma_missing_before(groups: Seq<GroupView>, i: int)
    requires
        0 <= i <= groups.len(),
    ensures
        unnumbered(groups.take(i)) <= unnumbered(groups),
        unnumbered(groups.take(i)) > 0 ==> exists|p: int|
            0 <= p < i && (#[trigger] groups[p]).id == 0 && unnumbered(groups.take(p)) + 1
                == unnumbered(groups.take(i)),
        i < groups.len() && groups[i].id == 0 ==> unnumbered(groups.take(i)) < unnumbered(groups),
    decreases groups.len() + i,
{
    if groups.len() > 0 {
        let shorter = groups.drop_last();
        if i < groups.len() {
            assert(shorter.take(i) =~= groups.take(i));
            lemma_missing_before(shorter, i);
            if unnumbered(groups.take(i)) > 0 {
                let p = choose|p: int|
                    0 <= p < i && (#[trigger] shorter[p]).id == 0 && unnumbered(shorter.take(p)) + 1
                        == unnumbered(shorter.take(i));
                assert(shorter.take(p) =~= groups.take(p));
                assert(groups[p].id == 0);
            }
        } else {
            assert(groups.take(i) =~= groups);
            assert(groups.take(i - 1) =~= shorter);
            if groups.last().id == 0 {
                assert(groups[i - 1].id == 0);
            } else if unnumbered(groups) > 0 {
                lemma_missing_before(groups, i - 1);
                let p = choose|p: int|
                    0 <= p < i - 1 && (#[trigger] groups[p]).id == 0 && unnumbered(groups.take(p))
                        + 1 == unnumbered(groups.take(i - 1));
                assert(groups[p].id == 0);
            }
        }
    }
}

proof fn lemma_missing_grow(groups: Seq<GroupView>, i: int, j: int)
    requires
        0 <= i < j <= groups.len(),
        groups[i].id == 0,
    ensures
        unnumbered(groups.take(i)) < unnumbered(groups.take(j)),
{
    let part = groups.take(j);
    lemma_missing_before(part, i);
    assert(part.take(i) =~= groups.take(i));
    assert(part[i] == groups[i]);
}

proof fn lemma_number_of(playlist: Seq<GroupView>, i: int)
    requires
        numbers_left(playlist),
        0 <= i < regrouped(playlist).len(),
    ensures
        ({
            let groups = placed_playlist(playlist);
            let group = regrouped(playlist)[i];
            &&& group.title == groups[i].title
            &&& groups[i].id == kept_number(playlist, group.title)
            &&& groups[i].id <= max_id(groups)
            &&& groups[i].id != 0 ==> group.id == groups[i].id
            &&& groups[i].id == 0 ==> group.id == max_id(groups) + unnumbered(groups.take(i)) + 1
        }),
{
    let groups = placed_playlist(playlist);
    lemma_placed_playlist_keeps(playlist);
    lemma_max_is_reached(groups);
    lemma_missing_before(groups, i);
    assert(is_named(playlist, groups[i].title));
}

proof fn lemma_number_follows(playlist: Seq<GroupView>, i: int)
    requires
        numbers_left(playlist),
        0 <= i < regrouped(playlist).len(),
        kept_number(playlist, regrouped(playlist)[i].title) == 0,
    ensures
        regrouped(playlist)[i].id == 1 || exists|j: int|
            0 <= j < regrouped(playlist).len() && (#[trigger] regrouped(playlist)[j]).id
                == regrouped(playlist)[i].id - 1 && (kept_number(
                playlist,
                regrouped(playlist)[j].title,
            ) != 0 || j < i),
{
    let groups = placed_playlist(playlist);
    let result = regrouped(playlist);
    lemma_number_of(playlist, i);
    lemma_missing_before(groups, i);
    lemma_max_is_reached(groups);
    if unnumbered(groups.take(i)) > 0 {
        let p = choose|p: int|
            0 <= p < i && (#[trigger] groups[p]).id == 0 && unnumbered(groups.take(p)) + 1
                == unnumbered(groups.take(i));
        lemma_number_of(playlist, p);
        assert(result[p].id == result[i].id - 1);
    } else if max_id(groups) != 0 {
        let j = choose|j: int| 0 <= j < groups.len() && (#[trigger] groups[j]).id == max_id(groups);
        lemma_number_of(playlist, j);
        assert(result[j].id == result[i].id - 1);
    }
}

/// A group has the number that is kept for its title, where one is. The others have numbers beyond
/// all that are kept, growing from group to group, and without gaps: each is 1, or follows a number
/// that is kept or that of a new group before it.
pub proof fn numbers_are_kept_or_follow(playlist: Seq<GroupView>, i: int)
    requires
        numbers_left(playlist),
        0 <= i < regrouped(playlist).len(),
    ensures
        ({
            let result = regrouped(playlist);
            let kept = kept_number(playlist, result[i].title);
            &&& kept != 0 ==> result[i].id == kept
            &&& kept == 0 ==> {
                &&& forall|j: int|
                    0 <= j < result.len() ==> kept_number(playlist, (#[trigger] result[j]).title)
                        < result[i].id
                &&& forall|j: int|
                    i < j < result.len() && kept_number(playlist, (#[trigger] result[j]).title) == 0
                        ==> result[i].id < result[j].id
                &&& result[i].id == 1 || exists|j: int|
                    0 <= j < result.len() && (#[trigger] result[j]).id == result[i].id - 1 && (
                    kept_number(playlist, result[j].title) != 0 || j < i)
            }
        }),
{
    let result = regrouped(playlist);
    lemma_number_of(playlist, i);
    if kept_number(playlist, result[i].title) == 0 {
        assert forall|j: int| 0 <= j < result.len() implies kept_number(
            playlist,
            (#[trigger] result[j]).title,
        ) < result[i].id by {
            lemma_number_of(playlist, j);
        }
        assert forall|j: int|
            i < j < result.len() && kept_number(playlist, (#[trigger] result[j]).title)
                == 0 implies result[i].id < result[j].id by {
            lemma_number_of(playlist, j);
            lemma_missing_grow(placed_playlist(playlist), i, j);
        }
        lemma_number_follows(playlist, i);
    }
}

/// There are numbers left exactly where as many as there are new groups come after the largest
/// number that is kept.
pub proof fn numbers_that_regrouping_needs(playlist: Seq<GroupView>, largest: nat)
    requires
        forall|i: int|
            0 <= i < regrouped(playlist).len() ==> kept_number(
                playlist,
                (#[trigger] regrouped(playlist)[i]).title,
            ) <= largest,
        largest == 0 || exists|i: int|
            0 <= i < regrouped(playlist).len() && kept_number(
                playlist,
                (#[trigger] regrouped(playlist)[i]).title,
            ) == largest,
    ensures
        numbers_left(playlist) <==> largest + regrouped(playlist).filter(
            |g: GroupView| kept_number(playlist, g.title) == 0,
        ).len() <= u32::MAX,
{
    let groups = placed_playlist(playlist);
    let result = regrouped(playlist);
    lemma_placed_playlist_keeps(playlist);
    lemma_max_is_reached(groups);
    assert forall|i: int| 0 <= i < groups.len() implies (#[trigger] groups[i]).title
        == result[i].title && groups[i].id == kept_number(playlist, result[i].title) by {
        assert(is_named(playlist, groups[i].title));
    }
    if largest != 0 {
        let i = choose|i: int|
            0 <= i < result.len() && kept_number(playlist, (#[trigger] result[i]).title) == largest;
        assert(groups[i].id <= max_id(groups));
    }
    if max_id(groups) != 0 {
        let j = choose|j: int| 0 <= j < groups.len() && (#[trigger] groups[j]).id == max_id(groups);
        assert(kept_number(playlist, result[j].title) <= largest);
    }
    lemma_count_new(groups, result, |g: GroupView| kept_number(playlist, g.title) == 0);
}

proof fn lemma_count_new(
    groups: Seq<GroupView>,
    others: Seq<GroupView>,
    is_new: spec_fn(GroupView) -> bool,
)
    requires
        groups.len() == others.len(),
        forall|i: int|
            0 <= i < groups.len() ==> ((#[trigger] groups[i]).id == 0 <==> is_new(others[i])),
    ensures
        unnumbered(groups) == others.filter(is_new).len(),
    decreases groups.len(),
{
    reveal(Seq::filter);
    if groups.len() > 0 {
        let x = groups.drop_last();
        let y = others.drop_last();
        assert forall|i: int| 0 <= i < x.len() implies ((#[trigger] x[i]).id == 0 <==> is_new(
            y[i],
        )) by {
            assert(x[i] == groups[i]);
        }
        lemma_count_new(x, y, is_new);
        assert(groups[groups.len() - 1].id == 0 <==> is_new(others[groups.len() - 1]));
    }
}

/// Where there is a number for every channel beyond that of every group, there are numbers left.
pub proof fn spare_numbers_suffice(playlist: Seq<GroupView>)
    requires
        channel_count(playlist) <= u32::MAX,
        forall|i: int|
            0 <= i < playlist.len() ==> (#[trigger] playlist[i]).id + channel_count(playlist)
                <= u32::MAX,
    ensures
        numbers_left(playlist),
{
    placed_playlist_bounds(playlist);
    lemma_max_is_reached(playlist);
}

/// The position of the first channel that names that title; the number of channels where none does.
pub open spec fn first_naming(channels: Seq<ChannelView>, title: Seq<char>) -> int
    decreases channels.len(),
{
    if channels.len() == 0 || channels[0].group == title {
        0
    } else {
        1 + first_naming(channels.drop_first(), title)
    }
}

proof fn lemma_first_naming_push(
    channels: Seq<ChannelView>,
    channel: ChannelView,
    title: Seq<char>,
)
    ensures
        0 <= first_naming(channels, title) <= channels.len(),
        first_naming(channels, title) < channels.len() ==> channels[first_naming(
            channels,
            title,
        )].group == title && first_naming(channels.push(channel), title) == first_naming(
            channels,
            title,
        ),
        first_naming(channels, title) == channels.len() ==> first_naming(
            channels.push(channel),
            title,
        ) == (if channel.group == title {
            channels.len() as int
        } else {
            channels.len() as int + 1
        }),
    decreases channels.len(),
{
    let longer = channels.push(channel);
    if channels.len() == 0 {
        assert(longer.drop_first() =~= Seq::<ChannelView>::empty());
        assert(first_naming(longer.drop_first(), title) == 0);
    } else if channels[0].group != title {
        assert(longer.drop_first() =~= channels.drop_first().push(channel));
        lemma_first_naming_push(channels.drop_first(), channel, title);
    }
}

/// Whether the groups stand in the order in which channels first name them.
spec fn in_order_of_naming(groups: Seq<GroupView>, channels: Seq<ChannelView>) -> bool {
    &&& forall|i: int|
        0 <= i < groups.len() ==> first_naming(channels, (#[trigger] groups[i]).title)
            < channels.len()
    &&& forall|i: int, j: int|
        0 <= i < j < groups.len() ==> first_naming(channels, (#[trigger] groups[i]).title)
            < first_naming(channels, (#[trigger] groups[j]).title)
    &&& forall|k: int|
        0 <= k < channels.len() ==> exists|i: int|
            0 <= i < groups.len() && (#[trigger] groups[i]).title == (
            #[trigger] channels[k]).group
}

proof fn lemma_placed_in_order(
    groups: Seq<GroupView>,
    channels: Seq<ChannelView>,
    source: GroupView,
    channel: ChannelView,
)
    requires
        in_order_of_naming(groups, channels),
    ensures
        in_order_of_naming(placed(groups, source, channel), channels.push(channel)),
{
    let result = placed(groups, source, channel);
    let longer = channels.push(channel);
    let at = position_of_title(groups, channel.group);
    position_of_title_is_first(groups, channel.group);
    assert forall|i: int| 0 <= i < groups.len() implies (#[trigger] result[i]).title
        == groups[i].title && first_naming(longer, groups[i].title) == first_naming(
        channels,
        groups[i].title,
    ) by {
        lemma_first_naming_push(channels, channel, groups[i].title);
        assert(first_naming(channels, groups[i].title) < channels.len());
    }
    if at == groups.len() {
        lemma_first_naming_push(channels, channel, channel.group);
        let first = first_naming(channels, channel.group);
        if first < channels.len() {
            let i = choose|i: int|
                0 <= i < groups.len() && (#[trigger] groups[i]).title == channels[first].group;
            assert(groups[i].title != channel.group);
        }
        assert(result[at].title == channel.group);
        assert(first_naming(longer, result[at].title) == channels.len());
    }
    assert forall|i: int, j: int| 0 <= i < j < result.len() implies first_naming(
        longer,
        (#[trigger] result[i]).title,
    ) < first_naming(longer, (#[trigger] result[j]).title) by {
        assert(first_naming(channels, groups[i].title) < channels.len());
        if j < groups.len() {
            assert(first_naming(channels, groups[i].title) < first_naming(
                channels,
                groups[j].title,
            ));
        }
    }
    assert forall|i: int| 0 <= i < result.len() implies first_naming(
        longer,
        (#[trigger] result[i]).title,
    ) < longer.len() by {
        if i < groups.len() {
            assert(first_naming(channels, groups[i].title) < channels.len());
        }
    }
    assert forall|k: int| 0 <= k < longer.len() implies exists|i: int|
        0 <= i < result.len() && (#[trigger] result[i]).title == (#[trigger] longer[k]).group by {
        if k < channels.len() {
            assert(longer[k] == channels[k]);
            let i = choose|i: int|
                0 <= i < groups.len() && (#[trigger] groups[i]).title == channels[k].group;
            assert(result[i].title == longer[k].group);
        } else {
            assert(result[at].title == longer[k].group);
        }
    }
}

proof fn lemma_placed_channels_in_order(
    groups: Seq<GroupView>,
    channels: Seq<ChannelView>,
    source: GroupView,
    count: nat,
)
    requires
        count <= source.channels.len(),
        in_order_of_naming(groups, channels),
    ensures
        in_order_of_naming(
            placed_channels(groups, source, count),
            channels + source.channels.take(count as int),
        ),
    decreases count,
{
    if count == 0 {
        assert(channels + source.channels.take(0) =~= channels);
    } else {
        let before = channels + source.channels.take(count - 1);
        lemma_placed_channels_in_order(groups, channels, source, (count - 1) as nat);
        lemma_placed_in_order(
            placed_channels(groups, source, (count - 1) as nat),
            before,
            source,
            source.channels[count - 1],
        );
        assert(channels + source.channels.take(count as int) =~= before.push(
            source.channels[count - 1],
        ));
    }
}

proof fn lemma_placed_playlist_in_order(playlist: Seq<GroupView>)
    ensures
        in_order_of_naming(placed_playlist(playlist), all_channels(playlist)),
    decreases playlist.len(),
{
    if playlist.len() > 0 {
        let base = playlist.drop_last();
        let source = playlist.last();
        lemma_placed_playlist_in_order(base);
        lemma_placed_channels_in_order(
            placed_playlist(base),
            all_channels(base),
            source,
            source.channels.len(),
        );
        assert(source.channels.take(source.channels.len() as int) =~= source.channels);
    }
}

/// The groups stand in the order in which the channels first name them.
pub proof fn groups_stand_in_order_of_naming(playlist: Seq<GroupView>)
    ensures
        forall|i: int, j: int|
            0 <= i < j < regrouped(playlist).len() ==> first_naming(
                all_channels(playlist),
                (#[trigger] regrouped(playlist)[i]).title,
            ) < first_naming(
                all_channels(playlist),
                (#[trigger] regrouped(playlist)[j]).title,
            ),
{
    let groups = placed_playlist(playlist);
    let result = regrouped(playlist);
    lemma_placed_playlist_in_order(playlist);
    assert forall|i: int, j: int| 0 <= i < j < result.len() implies first_naming(
        all_channels(playlist),
        (#[trigger] result[i]).title,
    ) < first_naming(all_channels(playlist), (#[trigger] result[j]).title) by {
        assert(first_naming(all_channels(playlist), groups[i].title) < first_naming(
            all_channels(playlist),
            groups[j].title,
        ));
    }
}

} // verus!
