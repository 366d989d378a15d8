//! Putting every channel of a playlist into the group that it names.

use vstd::prelude::*;

use crate::playlist::{
    all_channels, channel_count, channels_view, count_after_replacing, groups_view, ChannelView,
    GroupView, PlaylistGroup, PlaylistItem,
};
use crate::stats::count_channels;

verus! {

/// The position of the first group of that title; the number of groups where there is none.
pub open spec fn position_of_title(groups: Seq<GroupView>, title: Seq<char>) -> int
    decreases groups.len(),
{
    if groups.len() == 0 || groups[0].title == title {
        0
    } else {
        1 + position_of_title(groups.drop_first(), title)
    }
}

/// The groups after a channel that came in `source` was put into the group that it names. A group
/// made for it has the number of `source` where that has the same title, and else number 0.
pub open spec fn placed(
    groups: Seq<GroupView>,
    source: GroupView,
    channel: ChannelView,
) -> Seq<GroupView> {
    let at = position_of_title(groups, channel.group);
    if at < groups.len() {
        groups.update(
            at,
            GroupView { channels: groups[at].channels.push(channel), ..groups[at] },
        )
    } else {
        groups.push(
            GroupView {
                id: if channel.group == source.title {
                    source.id
                } else {
                    0
                },
                title: channel.group,
                channels: seq![channel],
                xtream_cluster: channel.xtream_cluster,
            },
        )
    }
}

/// The groups after the first `count` channels of `source` were placed.
pub open spec fn placed_channels(
    groups: Seq<GroupView>,
    source: GroupView,
    count: nat,
) -> Seq<GroupView>
    decreases count,
{
    if count == 0 {
        groups
    } else {
        placed(
            placed_channels(groups, source, (count - 1) as nat),
            source,
            source.channels[count - 1],
        )
    }
}

/// The groups that the channels of a playlist name, before new groups get their number.
pub open spec fn placed_playlist(playlist: Seq<GroupView>) -> Seq<GroupView>
    decreases playlist.len(),
{
    if playlist.len() == 0 {
        Seq::empty()
    } else {
        let source = playlist.last();
        placed_channels(placed_playlist(playlist.drop_last()), source, source.channels.len())
    }
}

/// The largest number of a group, 0 where there is none.
pub open spec fn max_id(groups: Seq<GroupView>) -> nat
    decreases groups.len(),
{
    if groups.len() == 0 {
        0
    } else {
        let before = max_id(groups.drop_last());
        let id = groups.last().id as nat;
        if before < id {
            id
        } else {
            before
        }
    }
}

/// How many groups have number 0.
pub open spec fn unnumbered(groups: Seq<GroupView>) -> nat
    decreases groups.len(),
{
    if groups.len() == 0 {
        0
    } else {
        unnumbered(groups.drop_last()) + if groups.last().id == 0 {
            1nat
        } else {
            0nat
        }
    }
}

/// The groups with a number for each: those without one get the numbers that follow the largest,
/// in order.
pub open spec fn numbered(groups: Seq<GroupView>) -> Seq<GroupView> {
    Seq::new(
        groups.len(),
        |i: int|
            if groups[i].id == 0 {
                GroupView {
                    id: (max_id(groups) + unnumbered(groups.take(i)) + 1) as u32,
                    ..groups[i]
                }
            } else {
                groups[i]
            },
    )
}

/// The playlist that has every channel in the group that it names.
pub open spec fn regrouped(playlist: Seq<GroupView>) -> Seq<GroupView> {
    numbered(placed_playlist(playlist))
}

/// Whether there are numbers left for the groups without one that regrouping makes.
pub open spec fn numbers_left(playlist: Seq<GroupView>) -> bool {
    max_id(placed_playlist(playlist)) + unnumbered(placed_playlist(playlist)) <= u32::MAX
}

/// The sums over groups that the regrouping keeps depend on their numbers alone.
proof fn lemma_same_ids(a: Seq<GroupView>, b: Seq<GroupView>)
    requires
        a.len() == b.len(),
        forall|i: int| 0 <= i < a.len() ==> (#[trigger] a[i]).id == b[i].id,
    ensures
        max_id(a) == max_id(b),
        unnumbered(a) == unnumbered(b),
    decreases a.len(),
{
    if a.len() > 0 {
        let x = a.drop_last();
        let y = b.drop_last();
        assert forall|i: int| 0 <= i < x.len() implies (#[trigger] x[i]).id == y[i].id by {
            assert(x[i] == a[i]);
        }
        lemma_same_ids(x, y);
        assert(a.last() == a[a.len() - 1]);
    }
}

proof fn lemma_unnumbered_take(groups: Seq<GroupView>, k: int)
    requires
        0 <= k <= groups.len(),
    ensures
        unnumbered(groups.take(k)) <= unnumbered(groups),
        k < groups.len() && groups[k].id == 0 ==> unnumbered(groups.take(k)) < unnumbered(groups),
    decreases groups.len(),
{
    if k < groups.len() {
        if k < groups.len() - 1 {
            lemma_unnumbered_take(groups.drop_last(), k);
        }
        assert(groups.drop_last().take(k) =~= groups.take(k));
    } else {
        assert(groups.take(k) =~= groups);
    }
}

proof fn lemma_unnumbered_next(groups: Seq<GroupView>, k: int)
    requires
        0 <= k < groups.len(),
    ensures
        unnumbered(groups.take(k + 1)) == unnumbered(groups.take(k)) + if groups[k].id == 0 {
            1nat
        } else {
            0nat
        },
{
    assert(groups.take(k + 1).drop_last() =~= groups.take(k));
}

proof fn lemma_position(groups: Seq<GroupView>, title: Seq<char>, k: int)
    requires
        0 <= k <= groups.len(),
        forall|i: int| 0 <= i < k ==> (#[trigger] groups[i]).title != title,
    ensures
        k == groups.len() || groups[k].title == title ==> position_of_title(groups, title) == k,
    decreases groups.len(),
{
    if k > 0 {
        assert(groups[0].title != title);
        let rest = groups.drop_first();
        assert forall|i: int| 0 <= i < k - 1 implies (#[trigger] rest[i]).title != title by {
            assert(rest[i] == groups[i + 1]);
        }
        lemma_position(rest, title, k - 1);
    }
}

/// The position of the first group of that title.
fn find_group(groups: &Vec<PlaylistGroup>, title: &String) -> (r: usize)
    ensures
        r == position_of_title(groups_view(groups@), title@),
        r <= groups@.len(),
{
    let mut k: usize = 0;
    let ghost view = groups_view(groups@);
    while k < groups.len()
        invariant
            k <= groups@.len(),
            view == groups_view(groups@),
            forall|i: int| 0 <= i < k ==> (#[trigger] view[i]).title != title@,
        decreases groups.len() - k,
    {
        assert(view[k as int] == groups@[k as int]@);
        if groups[k].title == *title {
            proof {
                lemma_position(view, title@, k as int);
            }
            return k;
        }
        k = k + 1;
    }
    proof {
        lemma_position(view, title@, k as int);
    }
    k
}

/// Puts a channel that came in `source` into the group that it names.
fn place(groups: &mut Vec<PlaylistGroup>, source: &PlaylistGroup, channel: &PlaylistItem)
    ensures
        groups_view(final(groups)@) == placed(groups_view(old(groups)@), source@, channel@),
{
    let at: usize = find_group(groups, &channel.header.group);
    let ghost before = groups_view(groups@);
    if at < groups.len() {
        let ghost channels = groups@[at as int].channels@;
        let group = &mut groups[at];
        group.channels.push(channel.clone());
        proof {
            let after = groups@[at as int].channels@;
            assert(channels_view(after) =~= channels_view(channels).push(channel@));
            assert(groups_view(groups@) =~= placed(before, source@, channel@));
        }
    } else {
        let id: u32 = if channel.header.group == source.title {
            source.id
        } else {
            0
        };
        let mut channels: Vec<PlaylistItem> = Vec::new();
        channels.push(channel.clone());
        assert(channels_view(channels@) =~= seq![channel@]);
        groups.push(
            PlaylistGroup {
                id,
                title: channel.header.group.clone(),
                channels,
                xtream_cluster: channel.header.xtream_cluster,
            },
        );
        assert(groups_view(groups@) =~= placed(before, source@, channel@));
    }
}

/// The largest number of a group.
fn largest_id(groups: &Vec<PlaylistGroup>) -> (r: u32)
    ensures
        r == max_id(groups_view(groups@)),
{
    let mut largest: u32 = 0;
    let mut k: usize = 0;
    let ghost view = groups_view(groups@);
    while k < groups.len()
        invariant
            k <= groups@.len(),
            view == groups_view(groups@),
            largest == max_id(view.take(k as int)),
        decreases groups.len() - k,
    {
        assert(view.take(k + 1).drop_last() =~= view.take(k as int));
        if groups[k].id > largest {
            largest = groups[k].id;
        }
        k = k + 1;
    }
    assert(view.take(k as int) =~= view);
    largest
}

/// Gives every group without a number one.
fn number_groups(groups: &mut Vec<PlaylistGroup>)
    requires
        max_id(groups_view(old(groups)@)) + unnumbered(groups_view(old(groups)@)) <= u32::MAX,
    ensures
        groups_view(final(groups)@) == numbered(groups_view(old(groups)@)),
{
    let ghost before = groups_view(groups@);
    let mut max_group_id: u32 = largest_id(groups);
    let mut k: usize = 0;
    while k < groups.len()
        invariant
            k <= groups@.len(),
            groups@.len() == before.len(),
            max_id(before) + unnumbered(before) <= u32::MAX,
            max_group_id == max_id(before) + unnumbered(before.take(k as int)),
            forall|i: int| 0 <= i < k ==> (#[trigger] groups@[i])@ == numbered(before)[i],
            forall|i: int| k <= i < before.len() ==> (#[trigger] groups@[i])@ == before[i],
        decreases groups.len() - k,
    {
        proof {
            lemma_unnumbered_take(before, k as int);
            lemma_unnumbered_next(before, k as int);
            assert(groups@[k as int]@ == before[k as int]);
        }
        if groups[k].id == 0 {
            max_group_id = max_group_id + 1;
            let group = &mut groups[k];
            group.id = max_group_id;
        }
        k = k + 1;
    }
    assert(groups_view(groups@) =~= numbered(before));
}

proof fn lemma_unnumbered_at_most(groups: Seq<GroupView>)
    ensures
        unnumbered(groups) <= groups.len(),
    decreases groups.len(),
{
    if groups.len() > 0 {
        lemma_unnumbered_at_most(groups.drop_last());
    }
}

/// The position of a title is that of a group of that title, and no group before it has it.
pub proof fn position_of_title_is_first(groups: Seq<GroupView>, title: Seq<char>)
    ensures
        0 <= position_of_title(groups, title) <= groups.len(),
        position_of_title(groups, title) < groups.len() ==> groups[position_of_title(
            groups,
            title,
        )].title == title,
        forall|i: int|
            0 <= i < position_of_title(groups, title) ==> (#[trigger] groups[i]).title != title,
    decreases groups.len(),
{
    if groups.len() > 0 && groups[0].title != title {
        let rest = groups.drop_first();
        position_of_title_is_first(rest, title);
        assert forall|i: int| 0 <= i < position_of_title(groups, title) implies (
        #[trigger] groups[i]).title != title by {
            if i > 0 {
                assert(rest[i - 1] == groups[i]);
            }
        }
    }
}

proof fn lemma_placed_channels_bounds(groups: Seq<GroupView>, source: GroupView, count: nat)
    ensures
        placed_channels(groups, source, count).len() <= groups.len() + count,
        max_id(placed_channels(groups, source, count)) <= max_id(groups.push(source)),
    decreases count,
{
    assert(groups.push(source).drop_last() =~= groups);
    if count > 0 {
        let before = placed_channels(groups, source, (count - 1) as nat);
        let channel = source.channels[count - 1];
        let after = placed(before, source, channel);
        lemma_placed_channels_bounds(groups, source, (count - 1) as nat);
        position_of_title_is_first(before, channel.group);
        if position_of_title(before, channel.group) < before.len() {
            lemma_same_ids(before, after);
        } else {
            assert(after.drop_last() =~= before);
        }
    }
}

/// Regrouping takes no number that the playlist does not have, and makes no more groups than there
/// are channels.
pub proof fn placed_playlist_bounds(playlist: Seq<GroupView>)
    ensures
        max_id(placed_playlist(playlist)) <= max_id(playlist),
        placed_playlist(playlist).len() <= channel_count(playlist),
        unnumbered(placed_playlist(playlist)) <= channel_count(playlist),
    decreases playlist.len(),
{
    if playlist.len() > 0 {
        let before = placed_playlist(playlist.drop_last());
        let source = playlist.last();
        placed_playlist_bounds(playlist.drop_last());
        lemma_placed_channels_bounds(before, source, source.channels.len());
        assert(before.push(source).drop_last() =~= before);
    }
    lemma_unnumbered_at_most(placed_playlist(playlist));
}

/// The playlist that has every channel in the group that it names; new groups have no number.
fn place_channels(playlist: &Vec<PlaylistGroup>) -> (r: Vec<PlaylistGroup>)
    ensures
        groups_view(r@) == placed_playlist(groups_view(playlist@)),
{
    let ghost view = groups_view(playlist@);
    let mut new_groups: Vec<PlaylistGroup> = Vec::new();
    let mut i: usize = 0;
    assert(view.take(0) =~= Seq::<GroupView>::empty());
    assert(groups_view(new_groups@) =~= Seq::<GroupView>::empty());
    while i < playlist.len()
        invariant
            i <= playlist@.len(),
            view == groups_view(playlist@),
            groups_view(new_groups@) == placed_playlist(view.take(i as int)),
        decreases playlist.len() - i,
    {
        let source = &playlist[i];
        let ghost before = groups_view(new_groups@);
        let mut j: usize = 0;
        while j < source.channels.len()
            invariant
                j <= source.channels@.len(),
                groups_view(new_groups@) == placed_channels(before, source@, j as nat),
            decreases source.channels.len() - j,
        {
            assert(source@.channels[j as int] == source.channels@[j as int]@);
            place(&mut new_groups, source, &source.channels[j]);
            j = j + 1;
        }
        proof {
            assert(view.take(i + 1).drop_last() =~= view.take(i as int));
            assert(view.take(i + 1).last() == source@);
        }
        i = i + 1;
    }
    assert(view.take(i as int) =~= view);
    new_groups
}

/// How many groups have number 0.
fn count_unnumbered(groups: &Vec<PlaylistGroup>) -> (r: usize)
    ensures
        r == unnumbered(groups_view(groups@)),
{
    let ghost view = groups_view(groups@);
    let mut count: usize = 0;
    let mut k: usize = 0;
    assert(view.take(0) =~= Seq::<GroupView>::empty());
    while k < groups.len()
        invariant
            k <= groups@.len(),
            view == groups_view(groups@),
            count <= k,
            count == unnumbered(view.take(k as int)),
        decreases groups.len() - k,
    {
        assert(view.take(k + 1).drop_last() =~= view.take(k as int));
        if groups[k].id == 0 {
            count = count + 1;
        }
        k = k + 1;
    }
    assert(view.take(k as int) =~= view);
    count
}

/// Whether there are numbers for a group per channel beyond those that the playlist has. Then
/// there are enough for whatever regrouping makes.
pub fn has_spare_numbers(playlist: &Vec<PlaylistGroup>) -> (r: bool)
    ensures
        r <==> max_id(groups_view(playlist@)) + channel_count(groups_view(playlist@)) <= u32::MAX,
{
    let spare: usize = (u32::MAX - largest_id(playlist)) as usize;
    match count_channels(playlist) {
        Some(count) => count <= spare,
        None => false,
    }
}

/// Whether there are numbers left for the groups without one that regrouping makes.
pub fn can_regroup(playlist: &Vec<PlaylistGroup>) -> (r: bool)
    ensures
        r == numbers_left(groups_view(playlist@)),
{
    let placed = place_channels(playlist);
    let spare: usize = (u32::MAX - largest_id(&placed)) as usize;
    count_unnumbered(&placed) <= spare
}

/// The playlist that has every channel in the group that it names.
pub fn regroup(playlist: &Vec<PlaylistGroup>) -> (r: Vec<PlaylistGroup>)
    requires
        numbers_left(groups_view(playlist@)),
    ensures
        groups_view(r@) == regrouped(groups_view(playlist@)),
{
    let mut new_groups = place_channels(playlist);
    number_groups(&mut new_groups);
    new_groups
}

/// The channels that name a group of that title.
pub open spec fn naming(channels: Seq<ChannelView>, title: Seq<char>) -> Seq<ChannelView> {
    channels.filter(|c: ChannelView| c.group == title)
}

/// Whether no two groups have the same title.
pub open spec fn distinct_titles(groups: Seq<GroupView>) -> bool {
    forall|i: int, j: int|
        0 <= i < j < groups.len() ==> (#[trigger] groups[i]).title != (#[trigger] groups[j]).title
}

/// Whether the groups are those that the channels name: no title twice, in each group the channels
/// that name it, in the order in which they came, a group for every channel, and no other group.
pub open spec fn grouped_by_name(groups: Seq<GroupView>, channels: Seq<ChannelView>) -> bool {
    &&& distinct_titles(groups)
    &&& forall|i: int|
        0 <= i < groups.len() ==> (#[trigger] groups[i]).channels == naming(
            channels,
            groups[i].title,
        )
    &&& forall|i: int|
        0 <= i < groups.len() ==> (#[trigger] groups[i]).channels.len() > 0
            && groups[i].xtream_cluster == groups[i].channels[0].xtream_cluster
    &&& forall|k: int|
        0 <= k < channels.len() ==> exists|i: int|
            0 <= i < groups.len() && (#[trigger] groups[i]).title == (
            #[trigger] channels[k]).group
}

proof fn lemma_naming_push(channels: Seq<ChannelView>, channel: ChannelView, title: Seq<char>)
    ensures
        naming(channels.push(channel), title) == if channel.group == title {
            naming(channels, title).push(channel)
        } else {
            naming(channels, title)
        },
{
    reveal(Seq::filter);
    assert(channels.push(channel).drop_last() =~= channels);
}

proof fn lemma_naming_none(channels: Seq<ChannelView>, title: Seq<char>)
    requires
        forall|k: int| 0 <= k < channels.len() ==> (#[trigger] channels[k]).group != title,
    ensures
        naming(channels, title) =~= Seq::<ChannelView>::empty(),
    decreases channels.len(),
{
    reveal(Seq::filter);
    if channels.len() > 0 {
        let rest = channels.drop_last();
        assert forall|k: int| 0 <= k < rest.len() implies (#[trigger] rest[k]).group != title by {
            assert(rest[k] == channels[k]);
        }
        lemma_naming_none(rest, title);
        assert(channels.last() == channels[channels.len() - 1]);
    }
}

proof fn lemma_placed_grouped(
    groups: Seq<GroupView>,
    channels: Seq<ChannelView>,
    source: GroupView,
    channel: ChannelView,
)
    requires
        grouped_by_name(groups, channels),
    ensures
        grouped_by_name(placed(groups, source, channel), channels.push(channel)),
{
    let at = position_of_title(groups, channel.group);
    let after = placed(groups, source, channel);
    let more = channels.push(channel);
    position_of_title_is_first(groups, channel.group);
    assert forall|i: int| 0 <= i < after.len() implies (#[trigger] after[i]).channels == naming(
        more,
        after[i].title,
    ) && after[i].channels.len() > 0 && after[i].xtream_cluster
        == after[i].channels[0].xtream_cluster by {
        lemma_naming_push(channels, channel, after[i].title);
        if i < groups.len() {
            assert(groups[i].channels == naming(channels, groups[i].title));
            if i != at && at < groups.len() {
                assert(groups[i].title != groups[at].title);
            }
        } else {
            assert forall|k: int| 0 <= k < channels.len() implies (#[trigger] channels[k]).group
                != channel.group by {
                let j = choose|j: int|
                    0 <= j < groups.len() && (#[trigger] groups[j]).title == channels[k].group;
                assert(groups[j].title != channel.group);
            }
            lemma_naming_none(channels, channel.group);
            assert(after[i].channels =~= naming(more, channel.group));
        }
    }
    assert forall|k: int| 0 <= k < more.len() implies exists|i: int|
        0 <= i < after.len() && (#[trigger] after[i]).title == (#[trigger] more[k]).group by {
        if k < channels.len() {
            let j = choose|j: int|
                0 <= j < groups.len() && (#[trigger] groups[j]).title == channels[k].group;
            assert(after[j].title == more[k].group);
        } else {
            assert(after[at].title == more[k].group);
        }
    }
}

proof fn lemma_placed_channels_grouped(
    groups: Seq<GroupView>,
    channels: Seq<ChannelView>,
    source: GroupView,
    count: nat,
)
    requires
        grouped_by_name(groups, channels),
        count <= source.channels.len(),
    ensures
        grouped_by_name(
            placed_channels(groups, source, count),
            channels + source.channels.take(count as int),
        ),
    decreases count,
{
    if count == 0 {
        assert(channels + source.channels.take(0) =~= channels);
    } else {
        let last = (count - 1) as nat;
        let before = channels + source.channels.take(last as int);
        lemma_placed_channels_grouped(groups, channels, source, last);
        lemma_placed_grouped(
            placed_channels(groups, source, last),
            before,
            source,
            source.channels[last as int],
        );
        assert(channels + source.channels.take(count as int) =~= before.push(
            source.channels[last as int],
        ));
    }
}

proof fn lemma_placed_playlist_grouped(playlist: Seq<GroupView>)
    ensures
        grouped_by_name(placed_playlist(playlist), all_channels(playlist)),
    decreases playlist.len(),
{
    if playlist.len() > 0 {
        let before = playlist.drop_last();
        let source = playlist.last();
        lemma_placed_playlist_grouped(before);
        lemma_placed_channels_grouped(
            placed_playlist(before),
            all_channels(before),
            source,
            source.channels.len(),
        );
        assert(source.channels.take(source.channels.len() as int) =~= source.channels);
    }
}

/// Regrouping puts every channel into the group that it names, loses none and adds none, and keeps
/// the order of the channels of a group.
pub proof fn regrouped_by_name(playlist: Seq<GroupView>)
    ensures
        grouped_by_name(regrouped(playlist), all_channels(playlist)),
{
    let groups = placed_playlist(playlist);
    let result = regrouped(playlist);
    let channels = all_channels(playlist);
    lemma_placed_playlist_grouped(playlist);
    assert forall|i: int| 0 <= i < result.len() implies (#[trigger] result[i]).title
        == groups[i].title && result[i].channels == groups[i].channels && result[i].xtream_cluster
        == groups[i].xtream_cluster by {}
    assert forall|k: int| 0 <= k < channels.len() implies exists|i: int|
        0 <= i < result.len() && (#[trigger] result[i]).title == (#[trigger] channels[k]).group by {
        let j = choose|j: int|
            0 <= j < groups.len() && (#[trigger] groups[j]).title == channels[k].group;
        assert(result[j].title == channels[k].group);
    }
}

proof fn lemma_placed_channels_count(groups: Seq<GroupView>, source: GroupView, count: nat)
    ensures
        channel_count(placed_channels(groups, source, count)) == channel_count(groups) + count,
    decreases count,
{
    if count > 0 {
        let before = placed_channels(groups, source, (count - 1) as nat);
        let channel = source.channels[count - 1];
        lemma_placed_channels_count(groups, source, (count - 1) as nat);
        lemma_placed_count(before, source, channel);
    }
}

proof fn lemma_placed_count(groups: Seq<GroupView>, source: GroupView, channel: ChannelView)
    ensures
        channel_count(placed(groups, source, channel)) == channel_count(groups) + 1,
{
    let at = position_of_title(groups, channel.group);
    position_of_title_is_first(groups, channel.group);
    if at < groups.len() {
        count_after_replacing(
            groups,
            at,
            GroupView { channels: groups[at].channels.push(channel), ..groups[at] },
        );
    } else {
        assert(placed(groups, source, channel).drop_last() =~= groups);
    }
}

/// The number of channels depends on the channels alone.
pub proof fn same_channels_same_count(a: Seq<GroupView>, b: Seq<GroupView>)
    requires
        a.len() == b.len(),
        forall|i: int|
            0 <= i < a.len() ==> (#[trigger] a[i]).channels.len() == b[i].channels.len(),
    ensures
        channel_count(a) == channel_count(b),
    decreases a.len(),
{
    if a.len() > 0 {
        let x = a.drop_last();
        let y = b.drop_last();
        assert forall|i: int| 0 <= i < x.len() implies (#[trigger] x[i]).channels.len()
            == y[i].channels.len() by {
            assert(x[i] == a[i]);
        }
        same_channels_same_count(x, y);
        assert(a.last() == a[a.len() - 1]);
    }
}

proof fn lemma_placed_playlist_count(playlist: Seq<GroupView>)
    ensures
        channel_count(placed_playlist(playlist)) == channel_count(playlist),
    decreases playlist.len(),
{
    if playlist.len() > 0 {
        lemma_placed_playlist_count(playlist.drop_last());
        lemma_placed_channels_count(
            placed_playlist(playlist.drop_last()),
            playlist.last(),
            playlist.last().channels.len(),
        );
    }
}

/// Regrouping keeps the number of channels.
pub proof fn regrouped_count(playlist: Seq<GroupView>)
    ensures
        channel_count(regrouped(playlist)) == channel_count(playlist),
{
    lemma_placed_playlist_count(playlist);
    same_channels_same_count(regrouped(playlist), placed_playlist(playlist));
}

/// Whether no two groups have the same number, apart from number 0.
pub open spec fn distinct_ids(groups: Seq<GroupView>) -> bool {
    forall|i: int, j: int|
        0 <= i < j < groups.len() && (#[trigger] groups[i]).id != 0 ==> groups[i].id != (
        #[trigger] groups[j]).id
}

/// Whether every group with a number has it from a group of `playlist` of the same title.
spec fn ids_from(groups: Seq<GroupView>, playlist: Seq<GroupView>) -> bool {
    forall|i: int|
        0 <= i < groups.len() && (#[trigger] groups[i]).id != 0 ==> exists|k: int|
            0 <= k < playlist.len() && (#[trigger] playlist[k]).id == groups[i].id
                && playlist[k].title == groups[i].title
}

proof fn lemma_ids_from_placed_channels(
    groups: Seq<GroupView>,
    playlist: Seq<GroupView>,
    source: GroupView,
    count: nat,
)
    requires
        ids_from(groups, playlist),
        playlist.len() > 0,
        playlist.last() == source,
    ensures
        ids_from(placed_channels(groups, source, count), playlist),
    decreases count,
{
    if count > 0 {
        let before = placed_channels(groups, source, (count - 1) as nat);
        let channel = source.channels[count - 1];
        let after = placed(before, source, channel);
        lemma_ids_from_placed_channels(groups, playlist, source, (count - 1) as nat);
        position_of_title_is_first(before, channel.group);
        assert forall|i: int|
            0 <= i < after.len() && (#[trigger] after[i]).id != 0 implies exists|k: int|
            0 <= k < playlist.len() && (#[trigger] playlist[k]).id == after[i].id
                && playlist[k].title == after[i].title by {
            if i < before.len() {
                assert(before[i].id == after[i].id);
                let k = choose|k: int|
                    0 <= k < playlist.len() && (#[trigger] playlist[k]).id == before[i].id
                        && playlist[k].title == before[i].title;
                assert(playlist[k].id == after[i].id);
            } else {
                assert(playlist[playlist.len() - 1].id == after[i].id);
            }
        }
    }
}

proof fn lemma_ids_from_placed_playlist(playlist: Seq<GroupView>)
    ensures
        ids_from(placed_playlist(playlist), playlist),
    decreases playlist.len(),
{
    if playlist.len() > 0 {
        let before = playlist.drop_last();
        let groups = placed_playlist(before);
        lemma_ids_from_placed_playlist(before);
        assert forall|i: int|
            0 <= i < groups.len() && (#[trigger] groups[i]).id != 0 implies exists|k: int|
            0 <= k < playlist.len() && (#[trigger] playlist[k]).id == groups[i].id
                && playlist[k].title == groups[i].title by {
            let k = choose|k: int|
                0 <= k < before.len() && (#[trigger] before[k]).id == groups[i].id
                    && before[k].title == groups[i].title;
            assert(playlist[k].id == groups[i].id);
        }
        lemma_ids_from_placed_channels(
            groups,
            playlist,
            playlist.last(),
            playlist.last().channels.len(),
        );
    }
}

proof fn lemma_max_id(groups: Seq<GroupView>, i: int)
    requires
        0 <= i < groups.len(),
    ensures
        groups[i].id <= max_id(groups),
    decreases groups.len(),
{
    if i < groups.len() - 1 {
        lemma_max_id(groups.drop_last(), i);
    }
}

proof fn lemma_unnumbered_monotone(groups: Seq<GroupView>, i: int, j: int)
    requires
        0 <= i < j <= groups.len(),
        groups[i].id == 0,
    ensures
        unnumbered(groups.take(i)) < unnumbered(groups.take(j)),
{
    lemma_unnumbered_take(groups.take(j), i);
    assert(groups.take(j).take(i) =~= groups.take(i));
}

/// After regrouping every group has a number, and no two have the same where no two groups of the
/// playlist had.
pub proof fn regrouped_ids(playlist: Seq<GroupView>)
    requires
        numbers_left(playlist),
    ensures
        forall|i: int|
            0 <= i < regrouped(playlist).len() ==> (#[trigger] regrouped(playlist)[i]).id != 0,
        distinct_ids(playlist) ==> distinct_ids(regrouped(playlist)),
{
    let groups = placed_playlist(playlist);
    let result = regrouped(playlist);
    placed_playlist_bounds(playlist);
    lemma_placed_playlist_grouped(playlist);
    lemma_ids_from_placed_playlist(playlist);
    assert forall|i: int| 0 <= i < result.len() implies (#[trigger] result[i]).id != 0 && (
    groups[i].id == 0 ==> result[i].id == max_id(groups) + unnumbered(groups.take(i)) + 1) by {
        lemma_unnumbered_take(groups, i);
    }
    if distinct_ids(playlist) {
        assert forall|i: int, j: int|
            0 <= i < j < result.len() && (#[trigger] result[i]).id != 0 implies result[i].id != (
        #[trigger] result[j]).id by {
            lemma_max_id(groups, i);
            lemma_max_id(groups, j);
            if groups[i].id == 0 {
                lemma_unnumbered_monotone(groups, i, j);
            } else if groups[j].id != 0 {
                assert(groups[i].title != groups[j].title);
                let k = choose|k: int|
                    0 <= k < playlist.len() && (#[trigger] playlist[k]).id == groups[i].id
                        && playlist[k].title == groups[i].title;
                let l = choose|l: int|
                    0 <= l < playlist.len() && (#[trigger] playlist[l]).id == groups[j].id
                        && playlist[l].title == groups[j].title;
                if k < l {
                    assert(playlist[k].id != playlist[l].id);
                } else if l < k {
                    assert(playlist[l].id != playlist[k].id);
                }
            }
        }
    }
}

proof fn lemma_placed_channels_own(groups: Seq<GroupView>, source: GroupView, count: nat)
    requires
        0 < count <= source.channels.len(),
        position_of_title(groups, source.title) == groups.len(),
        forall|k: int|
            0 <= k < source.channels.len() ==> (#[trigger] source.channels[k]).group
                == source.title,
        source.xtream_cluster == source.channels[0].xtream_cluster,
    ensures
        placed_channels(groups, source, count) == groups.push(
            GroupView { channels: source.channels.take(count as int), ..source },
        ),
    decreases count,
{
    reveal_with_fuel(placed_channels, 2);
    position_of_title_is_first(groups, source.title);
    if count == 1 {
        assert(source.channels.take(1) =~= seq![source.channels[0]]);
    } else {
        let last = (count - 1) as nat;
        let part = GroupView { channels: source.channels.take(last as int), ..source };
        let before = groups.push(part);
        lemma_placed_channels_own(groups, source, last);
        assert forall|i: int| 0 <= i < groups.len() implies (#[trigger] before[i]).title
            != source.title by {
            assert(before[i] == groups[i]);
        }
        lemma_position(before, source.title, groups.len() as int);
        assert(source.channels.take(last as int).push(source.channels[last as int])
            =~= source.channels.take(count as int));
        assert(placed(before, source, source.channels[last as int]) =~= groups.push(
            GroupView { channels: source.channels.take(count as int), ..source },
        ));
    }
}

proof fn lemma_placed_prefix_own(playlist: Seq<GroupView>, count: nat)
    requires
        count <= playlist.len(),
        distinct_titles(playlist),
        forall|i: int|
            0 <= i < playlist.len() ==> (#[trigger] playlist[i]).channels.len() > 0
                && playlist[i].xtream_cluster == playlist[i].channels[0].xtream_cluster,
        forall|i: int, k: int|
            0 <= i < playlist.len() && 0 <= k < playlist[i].channels.len() ==> (
            #[trigger] playlist[i].channels[k]).group == playlist[i].title,
    ensures
        placed_playlist(playlist.take(count as int)) == playlist.take(count as int),
    decreases count,
{
    let part = playlist.take(count as int);
    if count > 0 {
        let before = playlist.take(count - 1);
        let source = playlist[count - 1];
        lemma_placed_prefix_own(playlist, (count - 1) as nat);
        assert(part.drop_last() =~= before);
        assert(part.last() == source);
        assert forall|i: int| 0 <= i < before.len() implies (#[trigger] before[i]).title
            != source.title by {
            assert(before[i] == playlist[i]);
        }
        lemma_position(before, source.title, before.len() as int);
        assert forall|k: int| 0 <= k < source.channels.len() implies (
        #[trigger] source.channels[k]).group == source.title by {
            assert(playlist[count - 1].channels[k].group == playlist[count - 1].title);
        }
        lemma_placed_channels_own(before, source, source.channels.len());
        assert(source.channels.take(source.channels.len() as int) =~= source.channels);
        assert(before.push(source) =~= part);
    } else {
        assert(part =~= Seq::<GroupView>::empty());
    }
}

/// A playlist whose channels are in the groups that they name, each group once and with a number,
/// is left as it is.
pub proof fn regrouped_already(playlist: Seq<GroupView>)
    requires
        distinct_titles(playlist),
        forall|i: int|
            0 <= i < playlist.len() ==> (#[trigger] playlist[i]).channels.len() > 0
                && playlist[i].xtream_cluster == playlist[i].channels[0].xtream_cluster,
        forall|i: int, k: int|
            0 <= i < playlist.len() && 0 <= k < playlist[i].channels.len() ==> (
            #[trigger] playlist[i].channels[k]).group == playlist[i].title,
        forall|i: int| 0 <= i < playlist.len() ==> (#[trigger] playlist[i]).id != 0,
    ensures
        regrouped(playlist) == playlist,
{
    lemma_placed_prefix_own(playlist, playlist.len());
    assert(playlist.take(playlist.len() as int) =~= playlist);
    assert(numbered(playlist) =~= playlist);
}

proof fn lemma_naming_members(channels: Seq<ChannelView>, title: Seq<char>)
    ensures
        forall|k: int|
            0 <= k < naming(channels, title).len() ==> (#[trigger] naming(channels, title)[k]).group
                == title,
    decreases channels.len(),
{
    reveal(Seq::filter);
    if channels.len() > 0 {
        lemma_naming_members(channels.drop_last(), title);
    }
}

/// Regrouping a second time changes nothing.
pub proof fn regrouped_twice(playlist: Seq<GroupView>)
    requires
        numbers_left(playlist),
    ensures
        regrouped(regrouped(playlist)) == regrouped(playlist),
{
    let result = regrouped(playlist);
    regrouped_by_name(playlist);
    regrouped_ids(playlist);
    assert forall|i: int, k: int|
        0 <= i < result.len() && 0 <= k < result[i].channels.len() implies (
    #[trigger] result[i].channels[k]).group == result[i].title by {
        lemma_naming_members(all_channels(playlist), result[i].title);
        assert(result[i].channels == naming(all_channels(playlist), result[i].title));
    }
    regrouped_already(result);
}

} // verus!
