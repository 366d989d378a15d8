//! The stages that the playlist of a target goes through, and their order.

use vstd::prelude::*;

use crate::config::{ConfigTarget, ProcessingOrder};
use crate::filter::{accepted, filter_playlist, filtered_group, filtered_playlist, Filter};
use crate::mapping::{can_map, can_number, map_playlist, mapped_playlist, mapped_playlist_count};
use crate::playlist::{channel_count, groups_view, ChannelView, GroupView, PlaylistGroup};
use crate::regroup::max_id;
use crate::rename::{rename_playlist, renamed_playlist, renamed_playlist_keeps};

verus! {

/// A stage of the processing of a playlist.
#[derive(Clone, Copy, Debug, PartialEq, Eq, Structural)]
pub enum ProcessingStage {
    FilterPlaylist,
    RenamePlaylist,
    MapPlaylist,
}

/// The stages in the order that its name spells.
pub open spec fn processing_pipe(order: ProcessingOrder) -> Seq<ProcessingStage> {
    match order {
        ProcessingOrder::Frm => seq![
            ProcessingStage::FilterPlaylist,
            ProcessingStage::RenamePlaylist,
            ProcessingStage::MapPlaylist,
        ],
        ProcessingOrder::Fmr => seq![
            ProcessingStage::FilterPlaylist,
            ProcessingStage::MapPlaylist,
            ProcessingStage::RenamePlaylist,
        ],
        ProcessingOrder::Rfm => seq![
            ProcessingStage::RenamePlaylist,
            ProcessingStage::FilterPlaylist,
            ProcessingStage::MapPlaylist,
        ],
        ProcessingOrder::Rmf => seq![
            ProcessingStage::RenamePlaylist,
            ProcessingStage::MapPlaylist,
            ProcessingStage::FilterPlaylist,
        ],
        ProcessingOrder::Mfr => seq![
            ProcessingStage::MapPlaylist,
            ProcessingStage::FilterPlaylist,
            ProcessingStage::RenamePlaylist,
        ],
        ProcessingOrder::Mrf => seq![
            ProcessingStage::MapPlaylist,
            ProcessingStage::RenamePlaylist,
            ProcessingStage::FilterPlaylist,
        ],
    }
}

/// The stages of a target, in order.
pub fn get_processing_pipe(target: &ConfigTarget) -> (r: Vec<ProcessingStage>)
    ensures
        r@ == processing_pipe(target.processing_order),
{
    let (first, second, third) = match target.processing_order {
        ProcessingOrder::Frm => (
            ProcessingStage::FilterPlaylist,
            ProcessingStage::RenamePlaylist,
            ProcessingStage::MapPlaylist,
        ),
        ProcessingOrder::Fmr => (
            ProcessingStage::FilterPlaylist,
            ProcessingStage::MapPlaylist,
            ProcessingStage::RenamePlaylist,
        ),
        ProcessingOrder::Rfm => (
            ProcessingStage::RenamePlaylist,
            ProcessingStage::FilterPlaylist,
            ProcessingStage::MapPlaylist,
        ),
        ProcessingOrder::Rmf => (
            ProcessingStage::RenamePlaylist,
            ProcessingStage::MapPlaylist,
            ProcessingStage::FilterPlaylist,
        ),
        ProcessingOrder::Mfr => (
            ProcessingStage::MapPlaylist,
            ProcessingStage::FilterPlaylist,
            ProcessingStage::RenamePlaylist,
        ),
        ProcessingOrder::Mrf => (
            ProcessingStage::MapPlaylist,
            ProcessingStage::RenamePlaylist,
            ProcessingStage::FilterPlaylist,
        ),
    };
    let mut pipe: Vec<ProcessingStage> = Vec::new();
    pipe.push(first);
    pipe.push(second);
    pipe.push(third);
    assert(pipe@ =~= processing_pipe(target.processing_order));
    pipe
}

/// Whatever the order, a playlist is filtered once, renamed once and mapped once.
pub proof fn pipe_has_each_stage_once(order: ProcessingOrder)
    ensures
        processing_pipe(order).len() == 3,
        processing_pipe(order).no_duplicates(),
        forall|stage: ProcessingStage| #[trigger] processing_pipe(order).contains(stage),
{
    let pipe = processing_pipe(order);
    assert forall|stage: ProcessingStage| #[trigger] pipe.contains(stage) by {
        assert(pipe[0] == stage || pipe[1] == stage || pipe[2] == stage);
    }
}

/// A playlist after a stage; a stage that the target does not configure leaves it as it is.
pub open spec fn staged(
    groups: Seq<GroupView>,
    stage: ProcessingStage,
    target: ConfigTarget,
) -> Seq<GroupView> {
    match stage {
        ProcessingStage::FilterPlaylist => filtered_playlist(groups, target.filter),
        ProcessingStage::RenamePlaylist => match target.rename {
            Some(renames) => if renames@.len() > 0 {
                renamed_playlist(groups, renames@)
            } else {
                groups
            },
            None => groups,
        },
        ProcessingStage::MapPlaylist => match target.mapping {
            Some(mappings) => mapped_playlist(groups, mappings@),
            None => groups,
        },
    }
}

/// A playlist after a list of stages.
pub open spec fn piped(
    groups: Seq<GroupView>,
    stages: Seq<ProcessingStage>,
    target: ConfigTarget,
) -> Seq<GroupView>
    decreases stages.len(),
{
    if stages.len() == 0 {
        groups
    } else {
        staged(piped(groups, stages.drop_last(), target), stages.last(), target)
    }
}

/// A playlist after the stages of a target.
pub open spec fn processed(groups: Seq<GroupView>, target: ConfigTarget) -> Seq<GroupView> {
    piped(groups, processing_pipe(target.processing_order), target)
}

/// Whether there are numbers left for the groups that mapping makes, wherever it stands among the
/// stages.
pub open spec fn can_pipe(
    groups: Seq<GroupView>,
    stages: Seq<ProcessingStage>,
    target: ConfigTarget,
) -> bool
    decreases stages.len(),
{
    stages.len() > 0 ==> {
        &&& can_pipe(groups, stages.drop_last(), target)
        &&& stages.last() == ProcessingStage::MapPlaylist ==> can_number(
            piped(groups, stages.drop_last(), target),
            target,
        )
    }
}

/// Whether there are numbers left for the groups that the stages of a target make.
pub open spec fn can_process(groups: Seq<GroupView>, target: ConfigTarget) -> bool {
    can_pipe(groups, processing_pipe(target.processing_order), target)
}

proof fn lemma_accepted_at_most(channels: Seq<ChannelView>, filter: Filter)
    ensures
        accepted(channels, filter).len() <= channels.len(),
    decreases channels.len(),
{
    reveal(Seq::filter);
    if channels.len() > 0 {
        lemma_accepted_at_most(channels.drop_last(), filter);
    }
}

proof fn lemma_filtered_at_most(groups: Seq<GroupView>, filter: Filter)
    ensures
        max_id(filtered_playlist(groups, filter)) <= max_id(groups),
        channel_count(filtered_playlist(groups, filter)) <= channel_count(groups),
    decreases groups.len(),
{
    reveal(Seq::filter);
    let each = |g: GroupView| filtered_group(g, filter);
    if groups.len() > 0 {
        let before = filtered_playlist(groups.drop_last(), filter);
        lemma_filtered_at_most(groups.drop_last(), filter);
        lemma_accepted_at_most(groups.last().channels, filter);
        assert(groups.map_values(each).drop_last() =~= groups.drop_last().map_values(each));
        if filtered_group(groups.last(), filter).channels.len() > 0 {
            assert(filtered_playlist(groups, filter).drop_last() =~= before);
        }
    } else {
        assert(groups.map_values(each) =~= Seq::<GroupView>::empty());
    }
}

/// No stage adds a channel, and only mapping makes a number.
pub proof fn staged_at_most(groups: Seq<GroupView>, stage: ProcessingStage, target: ConfigTarget)
    ensures
        channel_count(staged(groups, stage, target)) <= channel_count(groups),
        stage != ProcessingStage::MapPlaylist ==> max_id(staged(groups, stage, target)) <= max_id(
            groups,
        ),
{
    match stage {
        ProcessingStage::FilterPlaylist => {
            lemma_filtered_at_most(groups, target.filter);
        },
        ProcessingStage::RenamePlaylist => {
            if let Some(renames) = target.rename {
                renamed_playlist_keeps(groups, renames@);
            }
        },
        ProcessingStage::MapPlaylist => {
            if let Some(mappings) = target.mapping {
                mapped_playlist_count(groups, mappings@);
            }
        },
    }
}

/// Processing adds no channel.
pub proof fn processed_at_most(groups: Seq<GroupView>, target: ConfigTarget)
    ensures
        channel_count(processed(groups, target)) <= channel_count(groups),
{
    lemma_piped_at_most(groups, processing_pipe(target.processing_order), target);
}

proof fn lemma_piped_at_most(
    groups: Seq<GroupView>,
    stages: Seq<ProcessingStage>,
    target: ConfigTarget,
)
    ensures
        channel_count(piped(groups, stages, target)) <= channel_count(groups),
    decreases stages.len(),
{
    if stages.len() > 0 {
        lemma_piped_at_most(groups, stages.drop_last(), target);
        staged_at_most(piped(groups, stages.drop_last(), target), stages.last(), target);
    }
}

/// The playlist after a stage; `None` where mapping runs out of numbers.
fn run_stage(
    playlist: Vec<PlaylistGroup>,
    stage: ProcessingStage,
    target: &ConfigTarget,
) -> (r: Option<Vec<PlaylistGroup>>)
    ensures
        r is Some <==> (stage == ProcessingStage::MapPlaylist ==> can_number(
            groups_view(playlist@),
            *target,
        )),
        r is Some ==> groups_view(r->0@) == staged(groups_view(playlist@), stage, *target),
{
    let result = match stage {
        ProcessingStage::FilterPlaylist => filter_playlist(playlist.as_slice(), target),
        ProcessingStage::RenamePlaylist => rename_playlist(playlist.as_slice(), target),
        ProcessingStage::MapPlaylist => {
            if !can_map(&playlist, target) {
                return None;
            }
            map_playlist(playlist.as_slice(), target)
        },
    };
    match result {
        Some(new_playlist) => Some(new_playlist),
        None => Some(playlist),
    }
}

proof fn lemma_cannot_pipe(
    groups: Seq<GroupView>,
    stages: Seq<ProcessingStage>,
    target: ConfigTarget,
    k: int,
)
    requires
        0 <= k <= stages.len(),
        !can_pipe(groups, stages.take(k), target),
    ensures
        !can_pipe(groups, stages, target),
    decreases stages.len(),
{
    if k < stages.len() {
        assert(stages.drop_last().take(k) =~= stages.take(k));
        lemma_cannot_pipe(groups, stages.drop_last(), target, k);
    } else {
        assert(stages.take(k) =~= stages);
    }
}

/// The playlist after the stages of a target; `None` where mapping runs out of numbers.
pub fn run_pipe(playlist: Vec<PlaylistGroup>, target: &ConfigTarget) -> (r: Option<
    Vec<PlaylistGroup>,
>)
    ensures
        r is Some <==> can_process(groups_view(playlist@), *target),
        r is Some ==> groups_view(r->0@) == processed(groups_view(playlist@), *target),
{
    let pipe = get_processing_pipe(target);
    let ghost start = groups_view(playlist@);
    let mut current = playlist;
    let mut i: usize = 0;
    assert(pipe@.take(0) =~= Seq::<ProcessingStage>::empty());
    while i < pipe.len()
        invariant
            i <= pipe@.len(),
            pipe@ == processing_pipe(target.processing_order),
            start == groups_view(playlist@),
            groups_view(current@) == piped(start, pipe@.take(i as int), *target),
            can_pipe(start, pipe@.take(i as int), *target),
        decreases pipe.len() - i,
    {
        let stage = pipe[i];
        proof {
            assert(pipe@.take(i + 1).drop_last() =~= pipe@.take(i as int));
            assert(pipe@.take(i + 1).last() == stage);
        }
        match run_stage(current, stage, target) {
            Some(new_playlist) => {
                current = new_playlist;
            },
            None => {
                proof {
                    lemma_cannot_pipe(start, pipe@, *target, i + 1);
                }
                return None;
            },
        }
        i = i + 1;
    }
    assert(pipe@.take(i as int) =~= pipe@);
    Some(current)
}

} // verus!
