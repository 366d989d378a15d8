//! Statistics: the sizes of playlists, and where they are recorded.

use vstd::prelude::*;

use crate::playlist::{all_channels, FetchedView, GroupView};
use crate::stats::{
    lists_all, lists_in_order, size_of_playlist, stats_list, stats_view, InputStats, StatsView,
};
use crate::target::stats_after;

use crate::laws::playlists::channels_of_both;

verus! {

/// Every field of the statistics is seen, by the id of the input or by the position in a list.
pub proof fn statistics_are_seen_whole(
    stats: Map<u16, InputStats>,
    list: Seq<InputStats>,
    one: InputStats,
)
    ensures
        one@.name == one.name@,
        one@.input_type == one.input_type,
        one@.error_count == one.error_count,
        one@.raw_stats == one.raw_stats,
        one@.processed_stats == one.processed_stats,
        stats_view(stats).dom() == stats.dom(),
        forall|id: u16| stats.contains_key(id) ==> #[trigger] stats_view(stats)[id] == stats[id]@,
        stats_list(list).len() == list.len(),
        forall|i: int| 0 <= i < list.len() ==> #[trigger] stats_list(list)[i] == list[i]@,
{
    assert(stats_view(stats).dom() =~= stats.dom());
}

/// The size of a playlist is how many groups and how many channels it has.
pub proof fn sizes_count_groups_and_channels(groups: Seq<GroupView>)
    requires
        groups.len() <= usize::MAX,
        all_channels(groups).len() <= usize::MAX,
    ensures
        size_of_playlist(groups).group_count == groups.len(),
        size_of_playlist(groups).channel_count == all_channels(groups).len(),
{
    channels_of_both(groups, Seq::empty());
}

/// The statistics of an input have the size of the last playlist recorded for it, where one was;
/// nothing else of them changes, and no input gets or loses statistics.
pub proof fn the_last_size_is_recorded(
    stats: Map<u16, StatsView>,
    playlists: Seq<FetchedView>,
    id: u16,
)
    ensures
        stats_after(stats, playlists).contains_key(id) <==> stats.contains_key(id),
        stats.contains_key(id) ==> {
            let after = stats_after(stats, playlists)[id];
            &&& after.name == stats[id].name
            &&& after.input_type == stats[id].input_type
            &&& after.error_count == stats[id].error_count
            &&& after.raw_stats == stats[id].raw_stats
            &&& (forall|i: int|
                0 <= i < playlists.len() ==> (#[trigger] playlists[i]).input.id != id)
                ==> after.processed_stats == stats[id].processed_stats
            &&& forall|i: int|
                0 <= i < playlists.len() && (#[trigger] playlists[i]).input.id == id && (forall|
                    j: int,
                |
                    i < j < playlists.len() ==> (#[trigger] playlists[j]).input.id != id)
                    ==> after.processed_stats == size_of_playlist(playlists[i].playlist)
        },
    decreases playlists.len(),
{
    if playlists.len() > 0 {
        let shorter = playlists.drop_last();
        let last = playlists.last();
        the_last_size_is_recorded(stats, shorter, id);
        if stats.contains_key(id) {
            let before = stats_after(stats, shorter)[id];
            let after = stats_after(stats, playlists)[id];
            if last.input.id != id {
                assert(after == before);
                if forall|i: int|
                    0 <= i < playlists.len() ==> (#[trigger] playlists[i]).input.id != id {
                    assert forall|i: int| 0 <= i < shorter.len() implies (
                    #[trigger] shorter[i]).input.id != id by {
                        assert(shorter[i] == playlists[i]);
                    }
                }
            } else {
                assert(playlists[playlists.len() - 1].input.id == id);
            }
            assert forall|i: int|
                0 <= i < playlists.len() && (#[trigger] playlists[i]).input.id == id && (forall|
                    j: int,
                |
                    i < j < playlists.len() ==> (#[trigger] playlists[j]).input.id
                        != id) implies after.processed_stats == size_of_playlist(
                playlists[i].playlist,
            ) by {
                if i < shorter.len() {
                    assert(playlists[playlists.len() - 1].input.id != id);
                    assert(shorter[i].input.id == id);
                    assert forall|j: int| i < j < shorter.len() implies (
                    #[trigger] shorter[j]).input.id != id by {
                        assert(shorter[j] == playlists[j]);
                    }
                }
            }
        }
    }
}

/// A list of all statistics holds those of every input, no others, and as many as there are inputs
/// with statistics.
pub proof fn every_input_is_listed_once(list: Seq<StatsView>, stats: Map<u16, StatsView>)
    requires
        lists_all(list, stats),
    ensures
        list.len() == stats.dom().len(),
        forall|id: u16| #[trigger] stats.contains_key(id) ==> list.contains(stats[id]),
        forall|i: int| 0 <= i < list.len() ==> stats.values().contains(#[trigger] list[i]),
{
    let ids = choose|ids: Seq<u16>| #[trigger] lists_in_order(list, stats, ids);
    ids.unique_seq_to_set();
    assert forall|id: u16| #[trigger] stats.contains_key(id) implies list.contains(stats[id]) by {
        assert(ids.to_set().contains(id));
        let i = choose|i: int| 0 <= i < ids.len() && ids[i] == id;
        assert(list[i] == stats[id]);
    }
    assert forall|i: int| 0 <= i < list.len() implies stats.values().contains(
        #[trigger] list[i],
    ) by {
        assert(ids.to_set().contains(ids[i]));
        assert(stats.dom().contains(ids[i]) && stats[ids[i]] == list[i]);
    }
}

} // verus!
