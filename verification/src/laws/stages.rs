//! The stages of a target: what each does, and the order in which they follow each other.

use vstd::prelude::*;

use crate::config::{ConfigTarget, ProcessingOrder};
use crate::filter::filtered_playlist;
use crate::mapping::{can_number, mapped_playlist};
use crate::pipe::{
    can_pipe, can_process, piped, processed, processing_pipe, staged, ProcessingStage,
};
use crate::playlist::GroupView;
use crate::rename::renamed_playlist;

verus! {

/// A playlist filtered as a target says.
pub open spec fn filtered_by(groups: Seq<GroupView>, target: ConfigTarget) -> Seq<GroupView> {
    filtered_playlist(groups, target.filter)
}

/// A playlist renamed as a target says; without renames as it was.
pub open spec fn renamed_by(groups: Seq<GroupView>, target: ConfigTarget) -> Seq<GroupView> {
    if target.rename is Some && target.rename->0@.len() > 0 {
        renamed_playlist(groups, target.rename->0@)
    } else {
        groups
    }
}

/// A playlist mapped as a target says; without mappings as it was.
pub open spec fn mapped_by(groups: Seq<GroupView>, target: ConfigTarget) -> Seq<GroupView> {
    if target.mapping is Some {
        mapped_playlist(groups, target.mapping->0@)
    } else {
        groups
    }
}

/// A stage does what its name says.
pub proof fn stages_do_what_they_are_called(groups: Seq<GroupView>, target: ConfigTarget)
    ensures
        staged(groups, ProcessingStage::FilterPlaylist, target) == filtered_by(groups, target),
        staged(groups, ProcessingStage::RenamePlaylist, target) == renamed_by(groups, target),
        staged(groups, ProcessingStage::MapPlaylist, target) == mapped_by(groups, target),
{
}

/// What a stage makes of a playlist depends on its own setting alone.
pub proof fn stages_mind_their_own_setting(
    groups: Seq<GroupView>,
    target: ConfigTarget,
    other: ConfigTarget,
)
    ensures
        target.filter == other.filter ==> staged(groups, ProcessingStage::FilterPlaylist, target)
            == staged(groups, ProcessingStage::FilterPlaylist, other),
        target.rename == other.rename ==> staged(groups, ProcessingStage::RenamePlaylist, target)
            == staged(groups, ProcessingStage::RenamePlaylist, other),
        target.mapping == other.mapping ==> staged(groups, ProcessingStage::MapPlaylist, target)
            == staged(groups, ProcessingStage::MapPlaylist, other),
{
}

/// The stages in the order that the name of an order spells.
pub proof fn pipes_are_spelled_by_their_order(order: ProcessingOrder)
    ensures
        ({
            let pipe = processing_pipe(order);
            let f = ProcessingStage::FilterPlaylist;
            let r = ProcessingStage::RenamePlaylist;
            let m = ProcessingStage::MapPlaylist;
            &&& pipe.len() == 3
            &&& order == ProcessingOrder::Frm ==> pipe[0] == f && pipe[1] == r && pipe[2] == m
            &&& order == ProcessingOrder::Fmr ==> pipe[0] == f && pipe[1] == m && pipe[2] == r
            &&& order == ProcessingOrder::Rfm ==> pipe[0] == r && pipe[1] == f && pipe[2] == m
            &&& order == ProcessingOrder::Rmf ==> pipe[0] == r && pipe[1] == m && pipe[2] == f
            &&& order == ProcessingOrder::Mfr ==> pipe[0] == m && pipe[1] == f && pipe[2] == r
            &&& order == ProcessingOrder::Mrf ==> pipe[0] == m && pipe[1] == r && pipe[2] == f
        }),
{
}

proof fn lemma_three_stages(
    groups: Seq<GroupView>,
    stages: Seq<ProcessingStage>,
    target: ConfigTarget,
)
    requires
        stages.len() == 3,
    ensures
        ({
            let first = staged(groups, stages[0], target);
            let second = staged(first, stages[1], target);
            let m = ProcessingStage::MapPlaylist;
            &&& piped(groups, stages, target) == staged(second, stages[2], target)
            &&& can_pipe(groups, stages, target) <==> (stages[0] == m ==> can_number(
                groups,
                target,
            )) && (stages[1] == m ==> can_number(first, target)) && (stages[2] == m ==> can_number(
                second,
                target,
            ))
        }),
{
    let two = stages.drop_last();
    let one = two.drop_last();
    assert(one.drop_last() =~= Seq::<ProcessingStage>::empty());
    assert(piped(groups, one.drop_last(), target) == groups);
    assert(can_pipe(groups, one.drop_last(), target));
    assert(one.last() == stages[0] && two.last() == stages[1] && stages.last() == stages[2]);
    assert(piped(groups, one, target) == staged(groups, stages[0], target));
    assert(piped(groups, two, target) == staged(piped(groups, one, target), stages[1], target));
    let m = ProcessingStage::MapPlaylist;
    assert(can_pipe(groups, one, target) <==> (stages[0] == m ==> can_number(groups, target)));
    assert(can_pipe(groups, two, target) <==> can_pipe(groups, one, target) && (stages[1] == m
        ==> can_number(piped(groups, one, target), target)));
}

/// A playlist goes through all three stages, in the order that the name of the order spells.
pub proof fn all_stages_follow_each_other(groups: Seq<GroupView>, target: ConfigTarget)
    ensures
        target.processing_order == ProcessingOrder::Frm ==> processed(groups, target) == mapped_by(
            renamed_by(filtered_by(groups, target), target),
            target,
        ),
        target.processing_order == ProcessingOrder::Fmr ==> processed(groups, target) == renamed_by(
            mapped_by(filtered_by(groups, target), target),
            target,
        ),
        target.processing_order == ProcessingOrder::Rfm ==> processed(groups, target) == mapped_by(
            filtered_by(renamed_by(groups, target), target),
            target,
        ),
        target.processing_order == ProcessingOrder::Rmf ==> processed(groups, target)
            == filtered_by(mapped_by(renamed_by(groups, target), target), target),
        target.processing_order == ProcessingOrder::Mfr ==> processed(groups, target) == renamed_by(
            filtered_by(mapped_by(groups, target), target),
            target,
        ),
        target.processing_order == ProcessingOrder::Mrf ==> processed(groups, target)
            == filtered_by(renamed_by(mapped_by(groups, target), target), target),
{
    pipes_are_spelled_by_their_order(target.processing_order);
    lemma_three_stages(groups, processing_pipe(target.processing_order), target);
}

/// Processing needs numbers for what mapping is given, after the stages before it.
pub proof fn numbers_that_processing_needs(groups: Seq<GroupView>, target: ConfigTarget)
    ensures
        target.processing_order == ProcessingOrder::Frm ==> (can_process(groups, target)
            <==> can_number(renamed_by(filtered_by(groups, target), target), target)),
        target.processing_order == ProcessingOrder::Fmr ==> (can_process(groups, target)
            <==> can_number(filtered_by(groups, target), target)),
        target.processing_order == ProcessingOrder::Rfm ==> (can_process(groups, target)
            <==> can_number(filtered_by(renamed_by(groups, target), target), target)),
        target.processing_order == ProcessingOrder::Rmf ==> (can_process(groups, target)
            <==> can_number(renamed_by(groups, target), target)),
        target.processing_order == ProcessingOrder::Mfr ==> (can_process(groups, target)
            <==> can_number(groups, target)),
        target.processing_order == ProcessingOrder::Mrf ==> (can_process(groups, target)
            <==> can_number(groups, target)),
{
    pipes_are_spelled_by_their_order(target.processing_order);
    lemma_three_stages(groups, processing_pipe(target.processing_order), target);
}

} // verus!
