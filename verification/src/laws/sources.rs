//! Sources: which inputs and targets are selected, what is kept of them, and what comes next.

use vstd::prelude::*;

use crate::config::{ConfigInput, ConfigSource, ConfigTarget, InputType, ProcessTargets};
use crate::error::{ErrorView, M3uFilterErrorKind};
use crate::playlist::{FetchedView, GroupView};
use crate::selection::{all_selected, next_selected_is_first, selected_before_are};
use crate::source::{
    after_playlist, after_target, after_writing, answered_all, empty_input, empty_source,
    enabled_count, fetched_stats, has_groups, input_selected, reply_errors,
    selected_inputs, selected_inputs_are_gathered, selected_targets, source_action,
    target_selected, with_reply, InputReply, RunView, SourceAction,
};
use crate::stats::size_of_playlist;
use crate::target::{all_processed, all_resolved, made_playlist, stats_after};
use crate::text::decimal;

verus! {

/// Where some inputs are enabled it only matters whether an input is, and where none is it only
/// matters whether the user asked for it.
pub proof fn enabled_inputs_or_those_asked_for(
    enabled_inputs: nat,
    enabled: bool,
    id: u16,
    user_targets: ProcessTargets,
)
    ensures
        enabled_inputs > 0 ==> (input_selected(enabled_inputs, enabled, id, user_targets)
            <==> enabled),
        enabled_inputs == 0 ==> (input_selected(enabled_inputs, enabled, id, user_targets)
            <==> user_targets.enabled && user_targets.inputs@.contains(id)),
{
}

/// The enabled inputs are counted.
pub proof fn enabled_inputs_are_counted(inputs: Seq<ConfigInput>)
    ensures
        enabled_count(inputs) == inputs.filter(|i: ConfigInput| i.enabled).len(),
    decreases inputs.len(),
{
    reveal(Seq::filter);
    if inputs.len() > 0 {
        enabled_inputs_are_counted(inputs.drop_last());
    }
}

/// Where the user asked for targets exactly those are selected, enabled or not, and where the user
/// did not exactly the enabled ones.
pub proof fn targets_asked_for_come_first(source: ConfigSource, user_targets: ProcessTargets)
    ensures
        selected_targets(source, user_targets).len() == source.targets@.len(),
        user_targets.enabled ==> forall|i: int|
            0 <= i < source.targets@.len() ==> (#[trigger] selected_targets(
                source,
                user_targets,
            )[i] <==> user_targets.targets@.contains(source.targets@[i].id)),
        !user_targets.enabled ==> forall|i: int|
            0 <= i < source.targets@.len() ==> (#[trigger] selected_targets(
                source,
                user_targets,
            )[i] <==> source.targets@[i].enabled),
        forall|target: ConfigTarget| #[trigger]
            target_selected(target, user_targets) <==> if user_targets.enabled {
                user_targets.targets@.contains(target.id)
            } else {
                target.enabled
            },
{
}

/// What an input brought is kept where it has groups, and every error of it is; an input without
/// groups is one error more, by its name or else by its address.
pub proof fn what_an_input_brought_is_kept(
    playlists: Seq<FetchedView>,
    input: ConfigInput,
    reply: InputReply,
)
    ensures
        ({
            let kept = with_reply(playlists, input, reply);
            let errors = reply_errors(input, reply);
            let called = if input.name is Some {
                input.name->0@
            } else {
                input.url@
            };
            &&& reply.playlist.len() == 0 ==> {
                &&& kept == playlists
                &&& errors.len() == reply.errors.len() + reply.guide_errors.len() + 1
                &&& errors.drop_last() == reply.errors + reply.guide_errors
                &&& errors.last().kind == M3uFilterErrorKind::Notify
                &&& errors.last().message == "source is empty "@ + called
                &&& errors.last() == empty_input(input)
            }
            &&& reply.playlist.len() > 0 ==> {
                &&& kept.len() == playlists.len() + 1
                &&& kept.drop_last() == playlists
                &&& kept.last().input == input
                &&& kept.last().playlist == reply.playlist
                &&& kept.last().epg == reply.guide
                &&& errors == reply.errors + reply.guide_errors
            }
        }),
{
    assert(reply_errors(input, reply).drop_last() =~= reply.errors + reply.guide_errors
        || reply.playlist.len() > 0);
    assert(with_reply(playlists, input, reply).drop_last() =~= playlists || reply.playlist.len()
        == 0);
}

/// The statistics of a fetched input have its name or address, its kind, the size of what it
/// brought, and nothing processed yet.
pub proof fn statistics_start_with_the_raw_size(input: ConfigInput, playlist: Seq<GroupView>)
    ensures
        ({
            let stats = fetched_stats(input, playlist);
            &&& input.name is Some ==> stats.name == input.name->0@
            &&& input.name is None ==> stats.name == input.url@
            &&& stats.input_type == input.input_type
            &&& stats.error_count == 0
            &&& stats.raw_stats == size_of_playlist(playlist)
            &&& stats.processed_stats.group_count == 0
            &&& stats.processed_stats.channel_count == 0
        }),
{
}

/// The error of an empty source tells its position, and the user is notified of it.
pub proof fn empty_sources_are_notified(source_idx: usize)
    ensures
        empty_source(source_idx).kind == M3uFilterErrorKind::Notify,
        empty_source(source_idx).message == "Source at "@ + decimal(
            source_idx as nat,
        ) + " input is empty"@,
{
}

/// The selected inputs are fetched in order, each as its kind says; its guide comes next where
/// nothing went wrong with its playlist, and not where something did.
pub proof fn selected_inputs_are_fetched(
    source: ConfigSource,
    source_idx: usize,
    user_targets: ProcessTargets,
    replies: Seq<InputReply>,
    playlist: Seq<GroupView>,
    errors: Seq<ErrorView>,
)
    requires
        replies.len() < all_selected(selected_inputs(source, user_targets)).len(),
    ensures
        ({
            let run = answered_all(source, source_idx, user_targets, replies);
            let at = all_selected(selected_inputs(source, user_targets))[replies.len() as int];
            let next = after_playlist(run, playlist, errors);
            &&& 0 <= at < source.inputs@.len()
            &&& source.inputs@[at].input_type == InputType::M3u ==> source_action(run)
                == SourceAction::FetchM3u(at as usize)
            &&& source.inputs@[at].input_type == InputType::Xtream ==> source_action(run)
                == SourceAction::FetchXtream(at as usize)
            &&& errors.len() == 0 ==> source_action(next) == SourceAction::FetchGuide(at as usize)
            &&& errors.len() > 0 ==> source_action(next) !is FetchGuide
        }),
{
    let selected = selected_inputs(source, user_targets);
    let fetched = all_selected(selected);
    selected_inputs_are_gathered(source, source_idx, user_targets, replies);
    selected_before_are(selected, selected.len() as int);
    assert(fetched.contains(fetched[replies.len() as int]));
}

/// A target changes the playlists by the series fetched for it, the statistics by the sizes of what
/// it made, and adds its errors; a target with groups waits for its writing, and else the next
/// selected one comes.
pub proof fn targets_are_recorded(
    run: RunView,
    series: Seq<Seq<GroupView>>,
    errors: Seq<ErrorView>,
)
    requires
        0 <= run.target < run.source.targets@.len(),
    ensures
        ({
            let target = run.source.targets@[run.target];
            let made = all_processed(run.playlists, series, target);
            let after = after_target(run, series, errors);
            let selected = selected_targets(run.source, run.user_targets);
            &&& after.playlists == all_resolved(run.playlists, series, target)
            &&& after.stats == stats_after(run.stats, made)
            &&& after.errors == run.errors + errors
            &&& after.source == run.source
            &&& after.source_idx == run.source_idx
            &&& after.user_targets == run.user_targets
            &&& after.input == run.input
            &&& after.pending == run.pending
            &&& has_groups(run, series) <==> made_playlist(made, target).len() > 0
            &&& made_playlist(made, target).len() > 0 ==> after.processed && after.target
                == run.target
            &&& made_playlist(made, target).len() == 0 ==> {
                &&& !after.processed
                &&& run.target < after.target <= selected.len()
                &&& after.target < selected.len() ==> selected[after.target]
                &&& forall|i: int| run.target < i < after.target ==> !#[trigger] selected[i]
            }
        }),
{
    let selected = selected_targets(run.source, run.user_targets);
    next_selected_is_first(selected, run.target + 1);
    assert(after_target(run, series, errors).errors =~= run.errors + errors);
}

/// After its writing a target leaves nothing but its errors, and the next selected one comes.
pub proof fn writing_adds_its_errors(run: RunView, errors: Seq<ErrorView>)
    requires
        0 <= run.target < run.source.targets@.len(),
    ensures
        ({
            let after = after_writing(run, errors);
            let selected = selected_targets(run.source, run.user_targets);
            &&& after.playlists == run.playlists
            &&& after.stats == run.stats
            &&& after.errors == run.errors + errors
            &&& after.source == run.source
            &&& after.input == run.input
            &&& after.pending == run.pending
            &&& !after.processed
            &&& run.target < after.target <= selected.len()
            &&& after.target < selected.len() ==> selected[after.target]
            &&& forall|i: int| run.target < i < after.target ==> !#[trigger] selected[i]
        }),
{
    next_selected_is_first(selected_targets(run.source, run.user_targets), run.target + 1);
}

} // verus!
