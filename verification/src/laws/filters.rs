//! Filters: conditions on channels, and what they leave of a playlist.

use vstd::prelude::*;

use crate::filter::{accepted, filtered_group, filtered_playlist, Filter};
use crate::pattern::{regex_is_match, Pattern};
use crate::playlist::{ChannelView, GroupView, ItemField};

verus! {

/// A comparison looks for its pattern in the field that it names.
pub proof fn comparisons_look_in_their_field(re: Pattern, channel: ChannelView)
    ensures
        Filter::FieldComparison(ItemField::Group, re).accepts(channel) == regex_is_match(
            re@,
            channel.group,
        ),
        Filter::FieldComparison(ItemField::Name, re).accepts(channel) == regex_is_match(
            re@,
            channel.name,
        ),
        Filter::FieldComparison(ItemField::Title, re).accepts(channel) == regex_is_match(
            re@,
            channel.title,
        ),
        Filter::FieldComparison(ItemField::Url, re).accepts(channel) == regex_is_match(
            re@,
            channel.url,
        ),
{
}

/// Conditions combine as their names say.
pub proof fn conditions_combine(left: Filter, right: Filter, channel: ChannelView)
    ensures
        Filter::Not(Box::new(left)).accepts(channel) <==> !left.accepts(channel),
        Filter::And(Box::new(left), Box::new(right)).accepts(channel) <==> left.accepts(channel)
            && right.accepts(channel),
        Filter::Or(Box::new(left), Box::new(right)).accepts(channel) <==> left.accepts(channel)
            || right.accepts(channel),
{
}

/// A channel alone is kept exactly where it is accepted, and of two lists those of the one are kept
/// and then those of the other.
pub proof fn channels_are_kept_one_by_one(
    first: Seq<ChannelView>,
    second: Seq<ChannelView>,
    filter: Filter,
)
    ensures
        first.len() == 1 ==> accepted(first, filter) == (if filter.accepts(first[0]) {
            first
        } else {
            Seq::empty()
        }),
        accepted(first + second, filter) == accepted(first, filter) + accepted(second, filter),
    decreases second.len(),
{
    reveal(Seq::filter);
    if first.len() == 1 {
        assert(first.drop_last() =~= Seq::<ChannelView>::empty());
        assert(accepted(first.drop_last(), filter) =~= Seq::<ChannelView>::empty());
        assert(first =~= Seq::<ChannelView>::empty().push(first[0]));
    }
    if second.len() > 0 {
        channels_are_kept_one_by_one(first, second.drop_last(), filter);
        assert((first + second).drop_last() =~= first + second.drop_last());
        assert(accepted(first + second, filter) =~= accepted(first, filter) + accepted(
            second,
            filter,
        ));
    } else {
        assert(first + second =~= first);
        assert(accepted(first + second, filter) =~= accepted(first, filter) + accepted(
            second,
            filter,
        ));
    }
}

/// A group alone is dropped exactly where no channel of it is accepted, and else keeps all but the
/// other channels. Of two lists the groups of the one are left and then those of the other.
pub proof fn groups_are_filtered_one_by_one(
    first: Seq<GroupView>,
    second: Seq<GroupView>,
    filter: Filter,
)
    ensures
        first.len() == 1 ==> {
            let result = filtered_playlist(first, filter);
            &&& result.len() == 0 <==> forall|i: int|
                0 <= i < first[0].channels.len() ==> !filter.accepts(
                    #[trigger] first[0].channels[i],
                )
            &&& result.len() > 0 ==> {
                &&& result.len() == 1
                &&& result[0].id == first[0].id
                &&& result[0].title == first[0].title
                &&& result[0].xtream_cluster == first[0].xtream_cluster
                &&& result[0].channels == accepted(first[0].channels, filter)
            }
        },
        filtered_playlist(first + second, filter) == filtered_playlist(first, filter)
            + filtered_playlist(second, filter),
    decreases second.len(),
{
    reveal(Seq::filter);
    let each = |g: GroupView| filtered_group(g, filter);
    if first.len() == 1 {
        lemma_none_accepted(first[0].channels, filter);
        let mapped = first.map_values(each);
        assert(mapped.drop_last() =~= Seq::<GroupView>::empty());
        assert(mapped.drop_last().filter(|g: GroupView| g.channels.len() > 0)
            =~= Seq::<GroupView>::empty());
        assert(mapped.last() == filtered_group(first[0], filter));
    }
    if second.len() > 0 {
        groups_are_filtered_one_by_one(first, second.drop_last(), filter);
        assert((first + second).map_values(each).drop_last() =~= (first
            + second.drop_last()).map_values(each));
        assert(second.map_values(each).drop_last() =~= second.drop_last().map_values(each));
        assert(filtered_playlist(first + second, filter) =~= filtered_playlist(first, filter)
            + filtered_playlist(second, filter));
    } else {
        assert(first + second =~= first);
        assert(second.map_values(each) =~= Seq::<GroupView>::empty());
        assert(filtered_playlist(first + second, filter) =~= filtered_playlist(first, filter)
            + filtered_playlist(second, filter));
    }
}

proof fn lemma_none_accepted(channels: Seq<ChannelView>, filter: Filter)
    ensures
        accepted(channels, filter).len() == 0 <==> forall|i: int|
            0 <= i < channels.len() ==> !filter.accepts(#[trigger] channels[i]),
    decreases channels.len(),
{
    reveal(Seq::filter);
    if channels.len() > 0 {
        let shorter = channels.drop_last();
        lemma_none_accepted(shorter, filter);
        if accepted(channels, filter).len() == 0 {
            assert forall|i: int| 0 <= i < channels.len() implies !filter.accepts(
                #[trigger] channels[i],
            ) by {
                if i < shorter.len() {
                    assert(shorter[i] == channels[i]);
                }
            }
        }
        if forall|i: int| 0 <= i < channels.len() ==> !filter.accepts(#[trigger] channels[i]) {
            assert forall|i: int| 0 <= i < shorter.len() implies !filter.accepts(
                #[trigger] shorter[i],
            ) by {
                assert(shorter[i] == channels[i]);
            }
            assert(!filter.accepts(channels[channels.len() - 1]));
        }
    }
}

} // verus!
