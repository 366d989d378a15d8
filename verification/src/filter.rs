//! Filters on channels, and the playlist that they leave.

use vstd::prelude::*;

use crate::config::ConfigTarget;
use crate::pattern::{regex_is_match, Pattern};
use crate::playlist::{
    all_channels, channels_view, get_field_value, groups_view, ChannelView, GroupView, ItemField,
    PlaylistGroup, PlaylistItem,
};

verus! {

/// A condition on a channel.
pub enum Filter {
    /// The pattern matches in the field.
    FieldComparison(ItemField, Pattern),
    Not(Box<Filter>),
    And(Box<Filter>, Box<Filter>),
    Or(Box<Filter>, Box<Filter>),
}

impl Filter {
    /// Whether a channel meets the condition.
    pub open spec fn accepts(self, channel: ChannelView) -> bool
        decreases self,
    {
        match self {
            Filter::FieldComparison(field, re) => regex_is_match(re@, channel.value(field)),
            Filter::Not(inner) => !inner.accepts(channel),
            Filter::And(left, right) => left.accepts(channel) && right.accepts(channel),
            Filter::Or(left, right) => left.accepts(channel) || right.accepts(channel),
        }
    }

    /// Whether a channel meets the condition.
    pub fn filter(&self, pli: &PlaylistItem) -> (r: bool)
        ensures
            r == self.accepts(pli@),
        decreases self,
    {
        match self {
            Filter::FieldComparison(field, re) => {
                let value = get_field_value(pli, *field);
                re.is_match(value.as_str())
            },
            Filter::Not(inner) => !inner.filter(pli),
            Filter::And(left, right) => left.filter(pli) && right.filter(pli),
            Filter::Or(left, right) => left.filter(pli) || right.filter(pli),
        }
    }
}

/// The channels that a filter accepts, in order.
pub open spec fn accepted(channels: Seq<ChannelView>, filter: Filter) -> Seq<ChannelView> {
    channels.filter(|c: ChannelView| filter.accepts(c))
}

/// A group with the channels that a filter accepts.
pub open spec fn filtered_group(group: GroupView, filter: Filter) -> GroupView {
    GroupView { channels: accepted(group.channels, filter), ..group }
}

/// The groups that a filter leaves something of, with the channels that it accepts.
pub open spec fn filtered_playlist(groups: Seq<GroupView>, filter: Filter) -> Seq<GroupView> {
    groups.map_values(|g: GroupView| filtered_group(g, filter)).filter(
        |g: GroupView| g.channels.len() > 0,
    )
}

proof fn lemma_accepted_push(channels: Seq<ChannelView>, channel: ChannelView, filter: Filter)
    ensures
        accepted(channels.push(channel), filter) == if filter.accepts(channel) {
            accepted(channels, filter).push(channel)
        } else {
            accepted(channels, filter)
        },
{
    reveal(Seq::filter);
    assert(channels.push(channel).drop_last() =~= channels);
}

proof fn lemma_filtered_push(groups: Seq<GroupView>, group: GroupView, filter: Filter)
    ensures
        filtered_playlist(groups.push(group), filter) == if filtered_group(
            group,
            filter,
        ).channels.len() > 0 {
            filtered_playlist(groups, filter).push(filtered_group(group, filter))
        } else {
            filtered_playlist(groups, filter)
        },
{
    reveal(Seq::filter);
    let each = |g: GroupView| filtered_group(g, filter);
    assert(groups.push(group).map_values(each).drop_last() =~= groups.map_values(each));
}

/// Whether the filter of a target accepts a channel.
pub fn is_valid(pli: &PlaylistItem, target: &ConfigTarget) -> (r: bool)
    ensures
        r == target.filter.accepts(pli@),
{
    target.filter.filter(pli)
}

/// The channels that the filter of a target accepts.
fn filter_channels(channels: &Vec<PlaylistItem>, target: &ConfigTarget) -> (r: Vec<PlaylistItem>)
    ensures
        channels_view(r@) == accepted(channels_view(channels@), target.filter),
{
    let ghost all = channels_view(channels@);
    let mut kept: Vec<PlaylistItem> = Vec::new();
    let mut i: usize = 0;
    proof {
        reveal(Seq::filter);
        assert(all.take(0) =~= Seq::<ChannelView>::empty());
        assert(channels_view(kept@) =~= accepted(all.take(0), target.filter));
    }
    while i < channels.len()
        invariant
            i <= channels@.len(),
            all == channels_view(channels@),
            channels_view(kept@) == accepted(all.take(i as int), target.filter),
        decreases channels.len() - i,
    {
        let pli = &channels[i];
        proof {
            lemma_accepted_push(all.take(i as int), pli@, target.filter);
            assert(all.take(i + 1) =~= all.take(i as int).push(pli@));
        }
        if is_valid(pli, target) {
            let ghost before = kept@;
            let copy = pli.clone();
            kept.push(copy);
            assert(channels_view(kept@) =~= channels_view(before).push(pli@));
        }
        i = i + 1;
    }
    assert(all.take(i as int) =~= all);
    kept
}

/// The playlist that the filter of a target leaves of a playlist.
pub fn filter_playlist(playlist: &[PlaylistGroup], target: &ConfigTarget) -> (r: Option<
    Vec<PlaylistGroup>,
>)
    ensures
        r is Some,
        groups_view(r->0@) == filtered_playlist(groups_view(playlist@), target.filter),
{
    let ghost all = groups_view(playlist@);
    let mut new_playlist: Vec<PlaylistGroup> = Vec::new();
    let mut i: usize = 0;
    proof {
        reveal(Seq::filter);
        assert(all.take(0) =~= Seq::<GroupView>::empty());
        assert(all.take(0).map_values(|g: GroupView| filtered_group(g, target.filter))
            =~= Seq::<GroupView>::empty());
        assert(groups_view(new_playlist@) =~= filtered_playlist(all.take(0), target.filter));
    }
    while i < playlist.len()
        invariant
            i <= playlist@.len(),
            all == groups_view(playlist@),
            groups_view(new_playlist@) == filtered_playlist(all.take(i as int), target.filter),
        decreases playlist.len() - i,
    {
        let group = &playlist[i];
        proof {
            lemma_filtered_push(all.take(i as int), group@, target.filter);
            assert(all.take(i + 1) =~= all.take(i as int).push(group@));
        }
        let channels = filter_channels(&group.channels, target);
        assert(channels@.len() == channels_view(channels@).len());
        if !channels.is_empty() {
            let ghost before = new_playlist@;
            new_playlist.push(
                PlaylistGroup {
                    id: group.id,
                    title: group.title.clone(),
                    channels,
                    xtream_cluster: group.xtream_cluster,
                },
            );
            assert(groups_view(new_playlist@) =~= groups_view(before).push(
                filtered_group(group@, target.filter),
            ));
        }
        i = i + 1;
    }
    assert(all.take(i as int) =~= all);
    Some(new_playlist)
}

proof fn lemma_accepted_add(a: Seq<ChannelView>, b: Seq<ChannelView>, filter: Filter)
    ensures
        accepted(a + b, filter) == accepted(a, filter) + accepted(b, filter),
    decreases b.len(),
{
    if b.len() == 0 {
        reveal(Seq::filter);
        assert(a + b =~= a);
        assert(accepted(a, filter) + accepted(b, filter) =~= accepted(a, filter));
    } else {
        let shorter = b.drop_last();
        lemma_accepted_add(a, shorter, filter);
        assert(a + b =~= (a + shorter).push(b.last()));
        assert(b =~= shorter.push(b.last()));
        lemma_accepted_push(a + shorter, b.last(), filter);
        lemma_accepted_push(shorter, b.last(), filter);
        assert(accepted(a + b, filter) =~= accepted(a, filter) + accepted(b, filter));
    }
}

/// Filtering keeps exactly the channels that the filter accepts, in order, and leaves no group
/// empty.
pub proof fn filtered_keeps_accepted(groups: Seq<GroupView>, filter: Filter)
    ensures
        all_channels(filtered_playlist(groups, filter)) == accepted(all_channels(groups), filter),
        forall|i: int|
            0 <= i < filtered_playlist(groups, filter).len() ==> (#[trigger] filtered_playlist(
                groups,
                filter,
            )[i]).channels.len() > 0,
    decreases groups.len(),
{
    if groups.len() == 0 {
        reveal(Seq::filter);
        assert(groups.map_values(|g: GroupView| filtered_group(g, filter))
            =~= Seq::<GroupView>::empty());
    } else {
        let shorter = groups.drop_last();
        let last = groups.last();
        let before = filtered_playlist(shorter, filter);
        let kept = filtered_group(last, filter);
        filtered_keeps_accepted(shorter, filter);
        assert(groups =~= shorter.push(last));
        lemma_filtered_push(shorter, last, filter);
        lemma_accepted_add(all_channels(shorter), last.channels, filter);
        if kept.channels.len() > 0 {
            assert(before.push(kept).drop_last() =~= before);
        } else {
            assert(all_channels(before) + kept.channels =~= all_channels(before));
        }
    }
}

proof fn lemma_accepted_twice(channels: Seq<ChannelView>, filter: Filter)
    ensures
        accepted(accepted(channels, filter), filter) == accepted(channels, filter),
    decreases channels.len(),
{
    if channels.len() == 0 {
        reveal(Seq::filter);
    } else {
        let shorter = channels.drop_last();
        lemma_accepted_twice(shorter, filter);
        assert(channels =~= shorter.push(channels.last()));
        lemma_accepted_push(shorter, channels.last(), filter);
        lemma_accepted_push(accepted(shorter, filter), channels.last(), filter);
    }
}

/// Filtering a second time changes nothing.
pub proof fn filtered_twice(groups: Seq<GroupView>, filter: Filter)
    ensures
        filtered_playlist(filtered_playlist(groups, filter), filter) == filtered_playlist(
            groups,
            filter,
        ),
    decreases groups.len(),
{
    if groups.len() == 0 {
        reveal(Seq::filter);
        assert(groups.map_values(|g: GroupView| filtered_group(g, filter))
            =~= Seq::<GroupView>::empty());
        assert(Seq::<GroupView>::empty().map_values(|g: GroupView| filtered_group(g, filter))
            =~= Seq::<GroupView>::empty());
    } else {
        let shorter = groups.drop_last();
        let last = groups.last();
        let kept = filtered_group(last, filter);
        filtered_twice(shorter, filter);
        assert(groups =~= shorter.push(last));
        lemma_filtered_push(shorter, last, filter);
        lemma_accepted_twice(last.channels, filter);
        if kept.channels.len() > 0 {
            lemma_filtered_push(filtered_playlist(shorter, filter), kept, filter);
        }
    }
}

} // verus!
