//! Processing a source: which of its inputs are fetched, what is kept of what they bring, and which
//! of its targets are made from it.
//!
//! Fetching and writing are up to the caller: a [`SourceRun`] says what to do next, and is told
//! what came of it.

use std::collections::HashMap;

use vstd::prelude::*;

use crate::affix::all_affixed;
use crate::config::{ConfigInput, ConfigSource, ConfigTarget, InputType, ProcessTargets};
use crate::error::{append_errors, errors_view, ErrorView, M3uFilterError, M3uFilterErrorKind};
use crate::playlist::{
    channel_count, fetched_view, groups_view, optional_guide, FetchedPlaylist, FetchedView,
    GroupView, PlaylistGroup, TVGuide,
};
use crate::selection::{
    all_selected, next_selected, position_after, selected_before_are, steps_meet_all_selected,
};
use crate::stats::{
    into_list, lists_all, measure, size_of_playlist, stats_list, stats_view, InputStats,
    PlaylistStats, StatsView,
};
use crate::target::{
    all_processed, all_resolved, all_within_limits, guide_requests, made_playlist,
    process_playlist, requests_view, series_view, stats_after, watches, ProcessedTarget,
};
use crate::text::{decimal, decimal_text};

verus! {

broadcast use vstd::std_specs::hash::group_hash_axioms;

/// Whether an input is fetched: an enabled one, or, where the source has none, one that the user
/// asked for.
pub open spec fn input_selected(
    enabled_inputs: nat,
    input_enabled: bool,
    input_id: u16,
    user_targets: ProcessTargets,
) -> bool {
    if enabled_inputs == 0 {
        user_targets.enabled && user_targets.inputs@.contains(input_id)
    } else {
        input_enabled
    }
}

/// Whether an input is fetched.
///
/// Where no input is enabled, those that the user asked for are used all the same. Where some are,
/// only these are.
pub fn is_input_enabled(
    enabled_inputs: usize,
    input_enabled: bool,
    input_id: u16,
    user_targets: &ProcessTargets,
) -> (r: bool)
    ensures
        r == input_selected(enabled_inputs as nat, input_enabled, input_id, *user_targets),
{
    if enabled_inputs == 0 {
        return user_targets.enabled && user_targets.has_input(input_id);
    }
    input_enabled
}

/// Whether a target is made: one that the user asked for, or, where the user asked for none, an
/// enabled one.
pub open spec fn target_selected(target: ConfigTarget, user_targets: ProcessTargets) -> bool {
    if user_targets.enabled {
        user_targets.targets@.contains(target.id)
    } else {
        target.enabled
    }
}

/// Whether a target is made.
pub fn is_target_enabled(target: &ConfigTarget, user_targets: &ProcessTargets) -> (r: bool)
    ensures
        r == target_selected(*target, *user_targets),
{
    (!user_targets.enabled && target.enabled) || (user_targets.enabled
        && user_targets.has_target(target.id))
}

/// How many inputs are enabled.
pub open spec fn enabled_count(inputs: Seq<ConfigInput>) -> nat
    decreases inputs.len(),
{
    if inputs.len() == 0 {
        0
    } else {
        enabled_count(inputs.drop_last()) + if inputs.last().enabled {
            1nat
        } else {
            0nat
        }
    }
}

/// For each input of a source, whether it is fetched.
pub open spec fn selected_inputs(source: ConfigSource, user_targets: ProcessTargets) -> Seq<bool> {
    Seq::new(
        source.inputs@.len(),
        |i: int|
            input_selected(
                enabled_count(source.inputs@),
                source.inputs@[i].enabled,
                source.inputs@[i].id,
                user_targets,
            ),
    )
}

/// For each target of a source, whether it is made.
pub open spec fn selected_targets(source: ConfigSource, user_targets: ProcessTargets) -> Seq<bool> {
    Seq::new(source.targets@.len(), |i: int| target_selected(source.targets@[i], user_targets))
}

/// How many inputs are enabled.
fn count_enabled(inputs: &Vec<ConfigInput>) -> (r: usize)
    ensures
        r == enabled_count(inputs@),
{
    let mut count: usize = 0;
    let mut i: usize = 0;
    assert(inputs@.take(0) =~= Seq::<ConfigInput>::empty());
    while i < inputs.len()
        invariant
            i <= inputs@.len(),
            count <= i,
            count == enabled_count(inputs@.take(i as int)),
        decreases inputs.len() - i,
    {
        proof {
            assert(inputs@.take(i + 1).drop_last() =~= inputs@.take(i as int));
            assert(inputs@.take(i + 1).last() == inputs@[i as int]);
        }
        if inputs[i].enabled {
            count = count + 1;
        }
        i = i + 1;
    }
    assert(inputs@.take(i as int) =~= inputs@);
    count
}

/// The next input to fetch, from position `from` on.
fn next_input(source: &ConfigSource, user_targets: &ProcessTargets, from: usize) -> (r: usize)
    requires
        from <= source.inputs@.len(),
    ensures
        r == next_selected(selected_inputs(*source, *user_targets), from as int),
        from <= r <= source.inputs@.len(),
{
    let enabled_inputs: usize = count_enabled(&source.inputs);
    let ghost selected = selected_inputs(*source, *user_targets);
    let mut i: usize = from;
    while i < source.inputs.len()
        invariant
            from <= i <= source.inputs@.len(),
            enabled_inputs == enabled_count(source.inputs@),
            selected == selected_inputs(*source, *user_targets),
            next_selected(selected, i as int) == next_selected(selected, from as int),
        decreases source.inputs.len() - i,
    {
        let input = &source.inputs[i];
        if is_input_enabled(enabled_inputs, input.enabled, input.id, user_targets) {
            return i;
        }
        i = i + 1;
    }
    i
}

/// The next target to make, from position `from` on.
fn next_target(source: &ConfigSource, user_targets: &ProcessTargets, from: usize) -> (r: usize)
    requires
        from <= source.targets@.len(),
    ensures
        r == next_selected(selected_targets(*source, *user_targets), from as int),
        from <= r <= source.targets@.len(),
{
    let ghost selected = selected_targets(*source, *user_targets);
    let mut i: usize = from;
    while i < source.targets.len()
        invariant
            from <= i <= source.targets@.len(),
            selected == selected_targets(*source, *user_targets),
            next_selected(selected, i as int) == next_selected(selected, from as int),
        decreases source.targets.len() - i,
    {
        if is_target_enabled(&source.targets[i], user_targets) {
            return i;
        }
        i = i + 1;
    }
    i
}

/// What to do next. The number is the position of the input or of the target.
#[derive(Clone, Copy, Debug, PartialEq, Eq, Structural)]
pub enum SourceAction {
    FetchM3u(usize),
    FetchXtream(usize),
    FetchGuide(usize),
    ProcessTarget(usize),
    WriteTarget(usize),
    Done,
}

/// How far the processing of a source has come.
pub struct SourceRun<'a> {
    source: &'a ConfigSource,
    source_idx: usize,
    user_targets: &'a ProcessTargets,
    input: usize,
    pending: Option<Vec<PlaylistGroup>>,
    target: usize,
    processed: bool,
    playlists: Vec<FetchedPlaylist<'a>>,
    errors: Vec<M3uFilterError>,
    stats: HashMap<u16, InputStats>,
}

/// How far the processing of a source has come: the input that is fetched, its playlist where only
/// its guide is missing, the target that is made and whether only its writing is missing, and what
/// came of it all so far.
#[verifier::ext_equal]
pub struct RunView {
    pub source: ConfigSource,
    pub source_idx: usize,
    pub user_targets: ProcessTargets,
    pub input: int,
    pub pending: Option<Seq<GroupView>>,
    pub target: int,
    pub processed: bool,
    pub playlists: Seq<FetchedView>,
    pub errors: Seq<ErrorView>,
    pub stats: Map<u16, StatsView>,
}

impl<'a> View for SourceRun<'a> {
    type V = RunView;

    closed spec fn view(&self) -> RunView {
        RunView {
            source: *self.source,
            source_idx: self.source_idx,
            user_targets: *self.user_targets,
            input: self.input as int,
            pending: match self.pending {
                Some(playlist) => Some(groups_view(playlist@)),
                None => None,
            },
            target: self.target as int,
            processed: self.processed,
            playlists: fetched_view(self.playlists@),
            errors: errors_view(self.errors@),
            stats: stats_view(self.stats@),
        }
    }
}

/// Whether the positions are ones of the source, and what is kept for later can be counted.
pub open spec fn is_valid_run(run: RunView) -> bool {
    &&& 0 <= run.input <= run.source.inputs@.len() <= usize::MAX
    &&& 0 <= run.target <= run.source.targets@.len() <= usize::MAX
    &&& run.pending is Some ==> run.input < run.source.inputs@.len() && channel_count(
        run.pending->0,
    ) <= usize::MAX
}

/// The next action.
pub open spec fn source_action(run: RunView) -> SourceAction {
    if run.pending is Some {
        SourceAction::FetchGuide(run.input as usize)
    } else if run.input < run.source.inputs@.len() {
        match run.source.inputs@[run.input].input_type {
            InputType::M3u => SourceAction::FetchM3u(run.input as usize),
            InputType::Xtream => SourceAction::FetchXtream(run.input as usize),
        }
    } else if run.target < run.source.targets@.len() {
        if run.processed {
            SourceAction::WriteTarget(run.target as usize)
        } else {
            SourceAction::ProcessTarget(run.target as usize)
        }
    } else {
        SourceAction::Done
    }
}

/// Whether the playlist of an input is to be fetched.
pub open spec fn fetches_playlist(run: RunView) -> bool {
    source_action(run) is FetchM3u || source_action(run) is FetchXtream
}

/// What an input is called: by its name, or by its address where it has none.
pub open spec fn input_name(input: ConfigInput) -> Seq<char> {
    match input.name {
        Some(name) => name@,
        None => input.url@,
    }
}

/// The error of an input that brought no groups.
pub open spec fn empty_input(input: ConfigInput) -> ErrorView {
    ErrorView {
        kind: M3uFilterErrorKind::Notify,
        message: "source is empty "@ + input_name(input),
    }
}

/// The error of a source none of whose inputs brought any groups.
pub open spec fn empty_source(source_idx: usize) -> ErrorView {
    ErrorView {
        kind: M3uFilterErrorKind::Notify,
        message: "Source at "@ + decimal(source_idx as nat) + " input is empty"@,
    }
}

/// The statistics of an input that has just been fetched.
pub open spec fn fetched_stats(input: ConfigInput, playlist: Seq<GroupView>) -> StatsView {
    StatsView {
        name: input_name(input),
        input_type: input.input_type,
        error_count: 0,
        raw_stats: size_of_playlist(playlist),
        processed_stats: PlaylistStats { group_count: 0, channel_count: 0 },
    }
}

/// What an input brought: its playlist and its programme guide, and what went wrong with either.
#[verifier::ext_equal]
pub struct InputReply {
    pub playlist: Seq<GroupView>,
    pub errors: Seq<ErrorView>,
    pub guide: Option<Seq<char>>,
    pub guide_errors: Seq<ErrorView>,
}

/// The errors that come of an input.
pub open spec fn reply_errors(input: ConfigInput, reply: InputReply) -> Seq<ErrorView> {
    let errors = reply.errors + reply.guide_errors;
    if reply.playlist.len() == 0 {
        errors.push(empty_input(input))
    } else {
        errors
    }
}

/// The playlists with that of an input, where it has groups.
pub open spec fn with_reply(
    playlists: Seq<FetchedView>,
    input: ConfigInput,
    reply: InputReply,
) -> Seq<FetchedView> {
    if reply.playlist.len() == 0 {
        playlists
    } else {
        playlists.push(FetchedView { input, playlist: reply.playlist, epg: reply.guide })
    }
}

/// The run at its next stage, where the inputs have all been fetched: the targets come next, or
/// nothing does, where no input brought any groups.
pub open spec fn with_targets(run: RunView) -> RunView {
    if run.input < run.source.inputs@.len() {
        run
    } else if run.playlists.len() == 0 {
        RunView {
            target: run.source.targets@.len() as int,
            errors: run.errors.push(empty_source(run.source_idx)),
            ..run
        }
    } else {
        RunView {
            target: next_selected(selected_targets(run.source, run.user_targets), 0),
            ..run
        }
    }
}

/// A run at its start.
pub open spec fn run_start(
    source: ConfigSource,
    source_idx: usize,
    user_targets: ProcessTargets,
) -> RunView {
    with_targets(
        RunView {
            source,
            source_idx,
            user_targets,
            input: next_selected(selected_inputs(source, user_targets), 0),
            pending: None,
            target: 0,
            processed: false,
            playlists: Seq::empty(),
            errors: Seq::empty(),
            stats: Map::empty(),
        },
    )
}

/// A run after an input.
pub open spec fn after_input(run: RunView, reply: InputReply) -> RunView {
    let input = run.source.inputs@[run.input];
    with_targets(
        RunView {
            input: next_selected(selected_inputs(run.source, run.user_targets), run.input + 1),
            pending: None,
            playlists: with_reply(run.playlists, input, reply),
            errors: run.errors + reply_errors(input, reply),
            stats: run.stats.insert(input.id, fetched_stats(input, reply.playlist)),
            ..run
        },
    )
}

/// A run after a playlist was fetched: its guide comes next, unless something went wrong.
pub open spec fn after_playlist(
    run: RunView,
    playlist: Seq<GroupView>,
    errors: Seq<ErrorView>,
) -> RunView {
    if errors.len() == 0 {
        RunView { pending: Some(playlist), ..run }
    } else {
        after_input(
            run,
            InputReply { playlist, errors, guide: None, guide_errors: Seq::empty() },
        )
    }
}

/// A run after a guide was fetched.
pub open spec fn after_guide(
    run: RunView,
    guide: Option<Seq<char>>,
    guide_errors: Seq<ErrorView>,
) -> RunView {
    after_input(
        run,
        InputReply { playlist: run.pending->0, errors: Seq::empty(), guide, guide_errors },
    )
}

/// A run after a target was made that is to be written; writing it comes next.
pub open spec fn after_processing(
    run: RunView,
    series: Seq<Seq<GroupView>>,
    errors: Seq<ErrorView>,
) -> RunView {
    let target = run.source.targets@[run.target];
    RunView {
        processed: true,
        playlists: all_resolved(run.playlists, series, target),
        errors: run.errors + errors,
        stats: stats_after(run.stats, all_processed(run.playlists, series, target)),
        ..run
    }
}

/// A run after a target was written.
pub open spec fn after_writing(run: RunView, errors: Seq<ErrorView>) -> RunView {
    RunView {
        target: next_selected(selected_targets(run.source, run.user_targets), run.target + 1),
        processed: false,
        errors: run.errors + errors,
        ..run
    }
}

/// Whether a target has groups, when its turn comes in a run.
pub open spec fn has_groups(run: RunView, series: Seq<Seq<GroupView>>) -> bool {
    let target = run.source.targets@[run.target];
    made_playlist(all_processed(run.playlists, series, target), target).len() > 0
}

/// A run after a target was made: a target with groups is to be written; one without groups is not
/// written, and the next target comes.
pub open spec fn after_target(
    run: RunView,
    series: Seq<Seq<GroupView>>,
    errors: Seq<ErrorView>,
) -> RunView {
    let next = after_processing(run, series, errors);
    if has_groups(run, series) {
        next
    } else {
        after_writing(next, Seq::empty())
    }
}

/// What an input is called.
fn name_of(input: &ConfigInput) -> (r: String)
    ensures
        r@ == input_name(*input),
{
    match &input.name {
        Some(name) => name.clone(),
        None => input.url.clone(),
    }
}

/// The error of an input that brought no groups.
fn empty_input_error(input: &ConfigInput) -> (r: M3uFilterError)
    ensures
        r@ == empty_input(*input),
{
    let mut message = "source is empty ".to_string();
    message.append(name_of(input).as_str());
    M3uFilterError::new(M3uFilterErrorKind::Notify, message)
}

/// The error of a source none of whose inputs brought any groups.
fn empty_source_error(source_idx: usize) -> (r: M3uFilterError)
    ensures
        r@ == empty_source(source_idx),
{
    let mut message = "Source at ".to_string();
    message.append(decimal_text(source_idx).as_str());
    message.append(" input is empty");
    M3uFilterError::new(M3uFilterErrorKind::Notify, message)
}

impl<'a> SourceRun<'a> {
    /// A run at its start.
    pub fn new(
        source: &'a ConfigSource,
        source_idx: usize,
        user_targets: &'a ProcessTargets,
    ) -> (r: SourceRun<'a>)
        ensures
            is_valid_run(r@),
            r@ == run_start(*source, source_idx, *user_targets),
    {
        let targets: usize = source.targets.len();
        let inputs: usize = source.inputs.len();
        let input: usize = next_input(source, user_targets, 0);
        let mut run = SourceRun {
            source,
            source_idx,
            user_targets,
            input,
            pending: None,
            target: 0,
            processed: false,
            playlists: Vec::new(),
            errors: Vec::new(),
            stats: HashMap::new(),
        };
        proof {
            assert(fetched_view(run.playlists@) =~= Seq::<FetchedView>::empty());
            assert(errors_view(run.errors@) =~= Seq::<ErrorView>::empty());
            assert(stats_view(run.stats@) =~= Map::<u16, StatsView>::empty());
        }
        run.start_targets();
        run
    }

    /// Goes on to the targets, where the inputs have all been fetched.
    fn start_targets(&mut self)
        requires
            old(self)@.input <= old(self)@.source.inputs@.len(),
            old(self)@.target <= old(self)@.source.targets@.len(),
        ensures
            final(self)@ == with_targets(old(self)@),
            final(self)@.target <= final(self)@.source.targets@.len(),
    {
        let source: &'a ConfigSource = self.source;
        if self.input >= source.inputs.len() {
            if self.playlists.is_empty() {
                let error = empty_source_error(self.source_idx);
                let ghost before = self.errors@;
                self.errors.push(error);
                self.target = source.targets.len();
                assert(errors_view(self.errors@) =~= errors_view(before).push(error@));
            } else {
                self.target = next_target(source, self.user_targets, 0);
            }
        }
    }

    /// The next action.
    pub fn action(&self) -> (r: SourceAction)
        requires
            is_valid_run(self@),
        ensures
            r == source_action(self@),
    {
        if self.pending.is_some() {
            SourceAction::FetchGuide(self.input)
        } else if self.input < self.source.inputs.len() {
            match self.source.inputs[self.input].input_type {
                InputType::M3u => SourceAction::FetchM3u(self.input),
                InputType::Xtream => SourceAction::FetchXtream(self.input),
            }
        } else if self.target < self.source.targets.len() {
            if self.processed {
                SourceAction::WriteTarget(self.target)
            } else {
                SourceAction::ProcessTarget(self.target)
            }
        } else {
            SourceAction::Done
        }
    }

    /// The playlists fetched so far, with the series added to them.
    pub fn playlists(&self) -> (r: &Vec<FetchedPlaylist<'a>>)
        ensures
            fetched_view(r@) == self@.playlists,
    {
        &self.playlists
    }

    /// Keeps what an input brought, and goes on to the next.
    fn keep_reply(
        &mut self,
        playlist: Vec<PlaylistGroup>,
        errors: Vec<M3uFilterError>,
        guide: Option<TVGuide>,
        guide_errors: Vec<M3uFilterError>,
    )
        requires
            is_valid_run(old(self)@),
            old(self)@.input < old(self)@.source.inputs@.len(),
            channel_count(groups_view(playlist@)) <= usize::MAX,
        ensures
            is_valid_run(final(self)@),
            final(self)@ == after_input(
                old(self)@,
                InputReply {
                    playlist: groups_view(playlist@),
                    errors: errors_view(errors@),
                    guide: optional_guide(guide),
                    guide_errors: errors_view(guide_errors@),
                },
            ),
    {
        let source: &'a ConfigSource = self.source;
        let input: &'a ConfigInput = &source.inputs[self.input];
        let ghost run = self@;
        let ghost reply = InputReply {
            playlist: groups_view(playlist@),
            errors: errors_view(errors@),
            guide: optional_guide(guide),
            guide_errors: errors_view(guide_errors@),
        };
        append_errors(&mut self.errors, errors);
        append_errors(&mut self.errors, guide_errors);
        let raw_stats = measure(&playlist);
        if playlist.is_empty() {
            let ghost before = self.errors@;
            let error = empty_input_error(input);
            self.errors.push(error);
            assert(errors_view(self.errors@) =~= errors_view(before).push(error@));
        } else {
            let ghost before = self.playlists@;
            let fetched = FetchedPlaylist { input, playlist, epg: guide };
            self.playlists.push(fetched);
            assert(fetched_view(self.playlists@) =~= fetched_view(before).push(fetched@));
        }
        assert(errors_view(self.errors@) =~= run.errors + reply_errors(*input, reply));
        let ghost known = self.stats@;
        let stat = InputStats {
            name: name_of(input),
            input_type: input.input_type,
            error_count: 0,
            raw_stats,
            processed_stats: PlaylistStats { group_count: 0, channel_count: 0 },
        };
        self.stats.insert(input.id, stat);
        assert(stats_view(self.stats@) =~= stats_view(known).insert(input.id, stat@));
        self.pending = None;
        self.input = next_input(source, self.user_targets, self.input + 1);
        self.start_targets();
    }

    /// Takes in the playlist of an input, and what went wrong with it.
    pub fn playlist_fetched(&mut self, playlist: Vec<PlaylistGroup>, errors: Vec<M3uFilterError>)
        requires
            is_valid_run(old(self)@),
            fetches_playlist(old(self)@),
            channel_count(groups_view(playlist@)) <= usize::MAX,
        ensures
            is_valid_run(final(self)@),
            final(self)@ == after_playlist(
                old(self)@,
                groups_view(playlist@),
                errors_view(errors@),
            ),
    {
        if errors.is_empty() {
            self.pending = Some(playlist);
        } else {
            let guide_errors: Vec<M3uFilterError> = Vec::new();
            assert(errors_view(guide_errors@) =~= Seq::<ErrorView>::empty());
            self.keep_reply(playlist, errors, None, guide_errors);
        }
    }

    /// Takes in the programme guide of an input, and what went wrong with it.
    pub fn guide_fetched(&mut self, guide: Option<TVGuide>, errors: Vec<M3uFilterError>)
        requires
            is_valid_run(old(self)@),
            source_action(old(self)@) is FetchGuide,
        ensures
            is_valid_run(final(self)@),
            final(self)@ == after_guide(
                old(self)@,
                optional_guide(guide),
                errors_view(errors@),
            ),
    {
        if let Some(playlist) = self.pending.take() {
            let playlist_errors: Vec<M3uFilterError> = Vec::new();
            assert(errors_view(playlist_errors@) =~= Seq::<ErrorView>::empty());
            self.keep_reply(playlist, playlist_errors, guide, errors);
        }
    }

    /// Makes the playlist of a target. `series` and `errors` are what came of fetching the series
    /// for the playlists one by one, where the target asks for that.
    ///
    /// A target that is left without groups is not written: the run goes on to the next one.
    ///
    /// `None` where a playlist is beyond limits; then nothing has changed.
    pub fn process_target(
        &mut self,
        series: &Vec<Vec<PlaylistGroup>>,
        errors: Vec<M3uFilterError>,
    ) -> (r: Option<ProcessedTarget>)
        requires
            is_valid_run(old(self)@),
            source_action(old(self)@) is ProcessTarget,
            series@.len() == old(self)@.playlists.len(),
        ensures
            is_valid_run(final(self)@),
            ({
                let run = old(self)@;
                let target = run.source.targets@[run.target];
                let fetched_series = series_view(series@);
                let made = all_processed(run.playlists, fetched_series, target);
                &&& r is Some <==> all_within_limits(run.playlists, fetched_series, target)
                &&& r is None ==> final(self)@ == run
                &&& r is Some ==> {
                    &&& final(self)@ == after_target(run, fetched_series, errors_view(errors@))
                    &&& source_action(final(self)@) is WriteTarget <==> r->0.playlist@.len() > 0
                    &&& groups_view(r->0.playlist@) == made_playlist(made, target)
                    &&& requests_view(r->0.guides@) == guide_requests(all_affixed(made))
                    &&& watches(r->0.watch, groups_view(r->0.playlist@), target)
                }
            }),
    {
        let source: &'a ConfigSource = self.source;
        let target = &source.targets[self.target];
        match process_playlist(&mut self.playlists, target, series, &mut self.stats) {
            Some(made) => {
                append_errors(&mut self.errors, errors);
                assert(groups_view(made.playlist@).len() == made.playlist@.len());
                if made.playlist.is_empty() {
                    let next: usize = self.target + 1;
                    self.target = next_target(source, self.user_targets, next);
                } else {
                    self.processed = true;
                }
                Some(made)
            },
            None => None,
        }
    }

    /// Takes in what went wrong with the writing of a target.
    pub fn target_written(&mut self, errors: Vec<M3uFilterError>)
        requires
            is_valid_run(old(self)@),
            source_action(old(self)@) is WriteTarget,
        ensures
            is_valid_run(final(self)@),
            final(self)@ == after_writing(old(self)@, errors_view(errors@)),
    {
        append_errors(&mut self.errors, errors);
        self.processed = false;
        let next: usize = self.target + 1;
        self.target = next_target(self.source, self.user_targets, next);
    }

    /// The statistics of the inputs that were fetched, in whatever order, and what went wrong, in
    /// order.
    pub fn finish(self) -> (r: (Vec<InputStats>, Vec<M3uFilterError>))
        ensures
            lists_all(stats_list(r.0@), self@.stats),
            errors_view(r.1@) == self@.errors,
    {
        (into_list(self.stats), self.errors)
    }
}

/// Where the source has enabled inputs, only these are fetched, whatever the user asked for; where
/// it has none, those that the user asked for are, though they are not enabled.
pub proof fn enabled_inputs_come_first(source: ConfigSource, user_targets: ProcessTargets)
    ensures
        (exists|i: int| 0 <= i < source.inputs@.len() && (#[trigger] source.inputs@[i]).enabled)
            ==> forall|i: int|
            0 <= i < source.inputs@.len() ==> #[trigger] selected_inputs(source, user_targets)[i]
                == source.inputs@[i].enabled,
        (forall|i: int| 0 <= i < source.inputs@.len() ==> !(#[trigger] source.inputs@[i]).enabled)
            ==> forall|i: int|
            0 <= i < source.inputs@.len() ==> #[trigger] selected_inputs(source, user_targets)[i]
                == (user_targets.enabled && user_targets.inputs@.contains(source.inputs@[i].id)),
{
    lemma_enabled_count(source.inputs@);
}

proof fn lemma_enabled_count(inputs: Seq<ConfigInput>)
    ensures
        enabled_count(inputs) == 0 <==> forall|i: int|
            0 <= i < inputs.len() ==> !(#[trigger] inputs[i]).enabled,
    decreases inputs.len(),
{
    if inputs.len() > 0 {
        let shorter = inputs.drop_last();
        lemma_enabled_count(shorter);
        if enabled_count(inputs) == 0 {
            assert forall|i: int| 0 <= i < inputs.len() implies !(#[trigger] inputs[i]).enabled by {
                if i < shorter.len() {
                    assert(shorter[i] == inputs[i]);
                }
            }
        }
        if forall|i: int| 0 <= i < inputs.len() ==> !(#[trigger] inputs[i]).enabled {
            assert forall|i: int| 0 <= i < shorter.len() implies !(
            #[trigger] shorter[i]).enabled by {
                assert(shorter[i] == inputs[i]);
            }
            assert(!inputs[inputs.len() - 1].enabled);
        }
    }
}

/// What is kept of what an input brought: where something went wrong with the playlist, no guide.
pub open spec fn kept_reply(reply: InputReply) -> InputReply {
    if reply.errors.len() == 0 {
        reply
    } else {
        InputReply { guide: None, guide_errors: Seq::empty(), ..reply }
    }
}

/// A run after everything that is fetched of an input.
pub open spec fn answered(run: RunView, reply: InputReply) -> RunView {
    let fetched = after_playlist(run, reply.playlist, reply.errors);
    if reply.errors.len() == 0 {
        after_guide(fetched, reply.guide, reply.guide_errors)
    } else {
        fetched
    }
}

/// A run after the first inputs that are fetched.
pub open spec fn answered_all(
    source: ConfigSource,
    source_idx: usize,
    user_targets: ProcessTargets,
    replies: Seq<InputReply>,
) -> RunView
    decreases replies.len(),
{
    if replies.len() == 0 {
        run_start(source, source_idx, user_targets)
    } else {
        answered(
            answered_all(source, source_idx, user_targets, replies.drop_last()),
            replies.last(),
        )
    }
}

/// The playlists that the inputs at the positions `fetched` brought.
pub open spec fn gathered_playlists(
    source: ConfigSource,
    fetched: Seq<int>,
    replies: Seq<InputReply>,
) -> Seq<FetchedView>
    decreases replies.len(),
{
    if replies.len() == 0 {
        Seq::empty()
    } else {
        with_reply(
            gathered_playlists(source, fetched, replies.drop_last()),
            source.inputs@[fetched[replies.len() - 1]],
            kept_reply(replies.last()),
        )
    }
}

/// The errors that came of the inputs at the positions `fetched`.
pub open spec fn gathered_errors(
    source: ConfigSource,
    fetched: Seq<int>,
    replies: Seq<InputReply>,
) -> Seq<ErrorView>
    decreases replies.len(),
{
    if replies.len() == 0 {
        Seq::empty()
    } else {
        gathered_errors(source, fetched, replies.drop_last()) + reply_errors(
            source.inputs@[fetched[replies.len() - 1]],
            kept_reply(replies.last()),
        )
    }
}

/// The statistics of the inputs at the positions `fetched`; of inputs of the same id, the last.
pub open spec fn gathered_stats(
    source: ConfigSource,
    fetched: Seq<int>,
    replies: Seq<InputReply>,
) -> Map<u16, StatsView>
    decreases replies.len(),
{
    if replies.len() == 0 {
        Map::empty()
    } else {
        let input = source.inputs@[fetched[replies.len() - 1]];
        gathered_stats(source, fetched, replies.drop_last()).insert(
            input.id,
            fetched_stats(input, replies.last().playlist),
        )
    }
}

/// The selected inputs are fetched, in order, and no others. What they brought is gathered in that
/// order: the playlists with groups, the statistics, and every error. After the last input the
/// selected targets come, unless no playlist was gathered: then there is one more error, and the
/// run is done.
pub proof fn selected_inputs_are_gathered(
    source: ConfigSource,
    source_idx: usize,
    user_targets: ProcessTargets,
    replies: Seq<InputReply>,
)
    requires
        replies.len() <= all_selected(selected_inputs(source, user_targets)).len(),
    ensures
        ({
            let fetched = all_selected(selected_inputs(source, user_targets));
            let run = answered_all(source, source_idx, user_targets, replies);
            let playlists = gathered_playlists(source, fetched, replies);
            let errors = gathered_errors(source, fetched, replies);
            let ended = replies.len() == fetched.len();
            &&& run.source == source
            &&& run.source_idx == source_idx
            &&& run.user_targets == user_targets
            &&& run.pending is None
            &&& !run.processed
            &&& run.input == if ended {
                source.inputs@.len() as int
            } else {
                fetched[replies.len() as int]
            }
            &&& run.playlists == playlists
            &&& run.stats == gathered_stats(source, fetched, replies)
            &&& run.errors == if ended && playlists.len() == 0 {
                errors.push(empty_source(source_idx))
            } else {
                errors
            }
            &&& ended && playlists.len() == 0 ==> source_action(run) == SourceAction::Done
            &&& ended && playlists.len() > 0 ==> run.target == next_selected(
                selected_targets(source, user_targets),
                0,
            )
        }),
    decreases replies.len(),
{
    let selected = selected_inputs(source, user_targets);
    let fetched = all_selected(selected);
    let run = answered_all(source, source_idx, user_targets, replies);
    steps_meet_all_selected(selected, replies.len());
    selected_before_are(selected, selected.len() as int);
    if replies.len() < fetched.len() {
        assert(fetched.contains(fetched[replies.len() as int]));
    }
    if replies.len() > 0 {
        let shorter = replies.drop_last();
        let before = answered_all(source, source_idx, user_targets, shorter);
        selected_inputs_are_gathered(source, source_idx, user_targets, shorter);
        steps_meet_all_selected(selected, shorter.len());
        assert(fetched.contains(fetched[shorter.len() as int]));
        assert(run == after_input(before, kept_reply(replies.last()))) by {
            if replies.last().errors.len() == 0 {
                assert(replies.last().errors =~= Seq::<ErrorView>::empty());
            }
        }
        assert(run.errors =~= if run.input == source.inputs@.len() && run.playlists.len() == 0 {
            gathered_errors(source, fetched, replies).push(empty_source(source_idx))
        } else {
            gathered_errors(source, fetched, replies)
        });
    }
}

/// What came of a target: the series fetched for it, what went wrong with them, and what goes wrong
/// with its writing, or would.
pub struct TargetReply {
    pub series: Seq<Seq<GroupView>>,
    pub errors: Seq<ErrorView>,
    pub write_errors: Seq<ErrorView>,
}

/// A run after the first targets that are made.
pub open spec fn after_targets(run: RunView, replies: Seq<TargetReply>) -> RunView
    decreases replies.len(),
{
    if replies.len() == 0 {
        run
    } else {
        let before = after_targets(run, replies.drop_last());
        let last = replies.last();
        let next = after_target(before, last.series, last.errors);
        if next.processed {
            after_writing(next, last.write_errors)
        } else {
            next
        }
    }
}

/// What went wrong with the targets; those without groups are not written.
pub open spec fn target_errors(run: RunView, replies: Seq<TargetReply>) -> Seq<ErrorView>
    decreases replies.len(),
{
    if replies.len() == 0 {
        Seq::empty()
    } else {
        let before = after_targets(run, replies.drop_last());
        let last = replies.last();
        let errors = target_errors(run, replies.drop_last()) + last.errors;
        if has_groups(before, last.series) {
            errors + last.write_errors
        } else {
            errors
        }
    }
}

/// The selected targets are made, in order, and no others. Each is written before the next is made,
/// if it has groups, and not at all if it has none. Errors keep no target from being made, and all
/// are kept.
pub proof fn selected_targets_are_made(run: RunView, replies: Seq<TargetReply>)
    requires
        run.pending is None,
        run.input == run.source.inputs@.len(),
        !run.processed,
        run.target == next_selected(selected_targets(run.source, run.user_targets), 0),
        replies.len() <= all_selected(selected_targets(run.source, run.user_targets)).len(),
    ensures
        ({
            let made = all_selected(selected_targets(run.source, run.user_targets));
            let after = after_targets(run, replies);
            &&& after.errors == run.errors + target_errors(run, replies)
            &&& replies.len() == made.len() ==> source_action(after) == SourceAction::Done
            &&& replies.len() < made.len() ==> {
                let position = made[replies.len() as int] as usize;
                &&& source_action(after) == SourceAction::ProcessTarget(position)
                &&& forall|series: Seq<Seq<GroupView>>, errors: Seq<ErrorView>|
                    if has_groups(after, series) {
                        source_action(#[trigger] after_target(after, series, errors))
                            == SourceAction::WriteTarget(position)
                    } else {
                        source_action(after_target(after, series, errors)) !is WriteTarget
                    }
            }
        }),
{
    let selected = selected_targets(run.source, run.user_targets);
    lemma_after_targets(run, replies);
    steps_meet_all_selected(selected, replies.len());
    selected_before_are(selected, selected.len() as int);
    if replies.len() < all_selected(selected).len() {
        assert(all_selected(selected).contains(all_selected(selected)[replies.len() as int]));
    }
}

proof fn lemma_after_targets(run: RunView, replies: Seq<TargetReply>)
    requires
        run.pending is None,
        run.input == run.source.inputs@.len(),
        !run.processed,
        run.target == next_selected(selected_targets(run.source, run.user_targets), 0),
    ensures
        after_targets(run, replies).source == run.source,
        after_targets(run, replies).user_targets == run.user_targets,
        after_targets(run, replies).pending is None,
        after_targets(run, replies).input == run.input,
        !after_targets(run, replies).processed,
        after_targets(run, replies).target == position_after(
            selected_targets(run.source, run.user_targets),
            replies.len(),
        ),
        after_targets(run, replies).errors == run.errors + target_errors(run, replies),
    decreases replies.len(),
{
    if replies.len() > 0 {
        lemma_after_targets(run, replies.drop_last());
    }
    assert(after_targets(run, replies).errors =~= run.errors + target_errors(run, replies));
}

} // verus!
