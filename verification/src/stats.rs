//! How many groups and channels an input brought, and how many were left after processing.

use std::collections::HashMap;

use vstd::prelude::*;
use vstd::std_specs::iter::IteratorSpec;

use crate::config::InputType;
use crate::playlist::{channel_count, groups_view, GroupView, PlaylistGroup};

verus! {

broadcast use vstd::std_specs::hash::group_hash_axioms;

/// The size of a playlist.
#[derive(Clone, Copy, Debug, PartialEq, Eq, Structural)]
pub struct PlaylistStats {
    pub group_count: usize,
    pub channel_count: usize,
}

/// What is known of an input after a run.
#[derive(Debug)]
pub struct InputStats {
    pub name: String,
    pub input_type: InputType,
    pub error_count: usize,
    pub raw_stats: PlaylistStats,
    pub processed_stats: PlaylistStats,
}

/// What the statistics of an input say.
#[verifier::ext_equal]
pub struct StatsView {
    pub name: Seq<char>,
    pub input_type: InputType,
    pub error_count: usize,
    pub raw_stats: PlaylistStats,
    pub processed_stats: PlaylistStats,
}

impl View for InputStats {
    type V = StatsView;

    open spec fn view(&self) -> StatsView {
        StatsView {
            name: self.name@,
            input_type: self.input_type,
            error_count: self.error_count,
            raw_stats: self.raw_stats,
            processed_stats: self.processed_stats,
        }
    }
}

/// What the statistics of the inputs say, by the id of the input.
pub open spec fn stats_view(stats: Map<u16, InputStats>) -> Map<u16, StatsView> {
    stats.map_values(|s: InputStats| s@)
}

/// The size of a playlist.
pub open spec fn size_of_playlist(groups: Seq<GroupView>) -> PlaylistStats {
    PlaylistStats {
        group_count: groups.len() as usize,
        channel_count: channel_count(groups) as usize,
    }
}

/// The statistics with the size of what processing left of an input, where the input has any.
pub open spec fn with_processed(
    stats: Map<u16, StatsView>,
    id: u16,
    groups: Seq<GroupView>,
) -> Map<u16, StatsView> {
    if stats.contains_key(id) {
        stats.insert(
            id,
            StatsView { processed_stats: size_of_playlist(groups), ..stats[id] },
        )
    } else {
        stats
    }
}

/// The size of a playlist.
pub fn measure(playlist: &Vec<PlaylistGroup>) -> (r: PlaylistStats)
    requires
        channel_count(groups_view(playlist@)) <= usize::MAX,
    ensures
        r == size_of_playlist(groups_view(playlist@)),
        r.group_count == playlist@.len(),
        r.channel_count == channel_count(groups_view(playlist@)),
{
    PlaylistStats {
        group_count: playlist.len(),
        channel_count: count_channels(playlist).unwrap(),
    }
}

/// The first groups of a playlist hold no more channels than all of them.
pub proof fn prefix_count(groups: Seq<GroupView>, k: int)
    requires
        0 <= k <= groups.len(),
    ensures
        channel_count(groups.take(k)) <= channel_count(groups),
    decreases groups.len(),
{
    if k < groups.len() {
        prefix_count(groups.drop_last(), k);
        assert(groups.drop_last().take(k) =~= groups.take(k));
    } else {
        assert(groups.take(k) =~= groups);
    }
}

/// Records the size of what processing left of an input, where the input has statistics.
pub fn record_processed(
    stats: &mut HashMap<u16, InputStats>,
    id: u16,
    playlist: &Vec<PlaylistGroup>,
)
    requires
        channel_count(groups_view(playlist@)) <= usize::MAX,
    ensures
        stats_view(final(stats)@) == with_processed(
            stats_view(old(stats)@),
            id,
            groups_view(playlist@),
        ),
{
    let ghost before = stats@;
    match stats.remove(&id) {
        Some(stat) => {
            let processed_stats = measure(playlist);
            stats.insert(
                id,
                InputStats {
                    name: stat.name,
                    input_type: stat.input_type,
                    error_count: stat.error_count,
                    raw_stats: stat.raw_stats,
                    processed_stats,
                },
            );
            assert(stats_view(stats@) =~= with_processed(
                stats_view(before),
                id,
                groups_view(playlist@),
            ));
        },
        None => {
            assert(stats@ =~= before);
        },
    }
}

/// The number of channels of a playlist; nothing where it is too large to be counted.
pub fn count_channels(playlist: &Vec<PlaylistGroup>) -> (r: Option<usize>)
    ensures
        r is Some <==> channel_count(groups_view(playlist@)) <= usize::MAX,
        r is Some ==> r->0 == channel_count(groups_view(playlist@)),
{
    let ghost view = groups_view(playlist@);
    let mut count: usize = 0;
    let mut i: usize = 0;
    assert(view.take(0) =~= Seq::<GroupView>::empty());
    while i < playlist.len()
        invariant
            i <= playlist@.len(),
            view == groups_view(playlist@),
            count == channel_count(view.take(i as int)),
        decreases playlist.len() - i,
    {
        proof {
            assert(view.take(i + 1).drop_last() =~= view.take(i as int));
            assert(view.take(i + 1).last() == playlist@[i as int]@);
            prefix_count(view, i + 1);
        }
        match count.checked_add(playlist[i].channels.len()) {
            Some(sum) => {
                count = sum;
            },
            None => {
                return None;
            },
        }
        i = i + 1;
    }
    assert(view.take(i as int) =~= view);
    Some(count)
}

/// Whether a list holds the statistics of every input once, in whatever order.
pub open spec fn lists_all(list: Seq<StatsView>, stats: Map<u16, StatsView>) -> bool {
    exists|ids: Seq<u16>| #[trigger] lists_in_order(list, stats, ids)
}

/// Whether a list holds the statistics of every input once, in the order of `ids`.
pub open spec fn lists_in_order(
    list: Seq<StatsView>,
    stats: Map<u16, StatsView>,
    ids: Seq<u16>,
) -> bool {
    &&& ids.no_duplicates()
    &&& ids.to_set() == stats.dom()
    &&& list.len() == ids.len()
    &&& forall|i: int| 0 <= i < list.len() ==> (#[trigger] list[i]) == stats[ids[i]]
}

/// The statistics of a list of inputs.
pub open spec fn stats_list(list: Seq<InputStats>) -> Seq<StatsView> {
    list.map_values(|s: InputStats| s@)
}

/// The ids of the inputs that have statistics, each once.
fn ids_of(stats: &HashMap<u16, InputStats>) -> (r: Vec<u16>)
    ensures
        r@.no_duplicates(),
        r@.to_set() == stats@.dom(),
{
    let mut ids: Vec<u16> = Vec::new();
    for id in iter: stats.keys()
        invariant
            ids@.len() == iter.index(),
            forall|i: int| 0 <= i < ids@.len() ==> ids@[i] == *iter.seq()[i],
    {
        ids.push(*id);
    }
    assert(ids@ =~= stats.keys().remaining().unref());
    ids
}

/// The statistics of all inputs, each once; the order is left open.
pub fn into_list(stats: HashMap<u16, InputStats>) -> (r: Vec<InputStats>)
    ensures
        lists_all(stats_list(r@), stats_view(stats@)),
{
    let ghost all = stats@;
    let ids = ids_of(&stats);
    let mut rest = stats;
    let mut list: Vec<InputStats> = Vec::new();
    let mut i: usize = 0;
    while i < ids.len()
        invariant
            i <= ids@.len(),
            list@.len() == i,
            ids@.no_duplicates(),
            ids@.to_set() == all.dom(),
            forall|j: int| 0 <= j < i ==> #[trigger] list@[j] == all[ids@[j]],
            forall|j: int|
                i <= j < ids@.len() ==> rest@.contains_key(#[trigger] ids@[j]) && rest@[ids@[j]]
                    == all[ids@[j]],
        decreases ids.len() - i,
    {
        if let Some(stat) = rest.remove(&ids[i]) {
            list.push(stat);
        }
        i = i + 1;
    }
    proof {
        assert(stats_view(all).dom() =~= all.dom());
        assert(lists_in_order(stats_list(list@), stats_view(all), ids@));
    }
    list
}

} // verus!
