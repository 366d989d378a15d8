//! Making the playlist of a target from the playlists of the inputs.

use std::collections::HashMap;

use vstd::prelude::*;

use crate::affix::{affixed, affixed_count, all_affixed, apply_affixes};
use crate::config::{ConfigInput, ConfigTarget, InputType, TargetType};
use crate::pattern::{regex_is_match, Pattern};
use crate::pipe::{can_process, processed, processed_at_most, run_pipe};
use crate::playlist::{
    all_channels, channel_count, clone_groups, clone_guide, fetched_view, groups_view,
    updated_with_all, updated_with_all_count, ChannelView, FetchedPlaylist, FetchedView, GroupView,
    PlaylistGroup, TVGuide,
};
use crate::sort::{
    sort_playlist, sorted_playlist, sorted_playlist_count, sorted_playlist_length,
};
use crate::stats::{
    count_channels, record_processed, stats_view, with_processed, InputStats, StatsView,
};
use crate::text::{equal_ignoring_case, same_ignoring_case, texts_view};

verus! {

/// A programme guide that is to be cut down to the channels of a playlist.
#[derive(Debug)]
pub struct GuideRequest {
    pub guide: TVGuide,
    pub channel_ids: Vec<String>,
}

/// What a guide request asks for.
#[verifier::ext_equal]
pub struct GuideRequestView {
    pub guide: Seq<char>,
    pub channel_ids: Seq<Seq<char>>,
}

impl View for GuideRequest {
    type V = GuideRequestView;

    open spec fn view(&self) -> GuideRequestView {
        GuideRequestView { guide: self.guide@, channel_ids: texts_view(self.channel_ids@) }
    }
}

/// What a list of guide requests asks for.
pub open spec fn requests_view(requests: Seq<GuideRequest>) -> Seq<GuideRequestView> {
    requests.map_values(|r: GuideRequest| r@)
}

/// Which groups of the playlist of a target are watched for changes.
#[derive(Debug)]
pub enum GroupWatch {
    /// None are.
    Nothing,
    /// Some should be, but the target has no name to keep what was seen under.
    NoUniqueName,
    /// The groups at these positions.
    Groups(Vec<usize>),
}

/// What is to be written, and done before, for a target.
#[derive(Debug)]
pub struct ProcessedTarget {
    pub playlist: Vec<PlaylistGroup>,
    pub guides: Vec<GuideRequest>,
    pub watch: GroupWatch,
}

/// What the playlists of a list of inputs hold.
pub open spec fn series_view(series: Seq<Vec<PlaylistGroup>>) -> Seq<Seq<GroupView>> {
    series.map_values(|s: Vec<PlaylistGroup>| groups_view(s@))
}

/// Whether the series of an input are fetched one by one for a target.
pub open spec fn resolves_series(target: ConfigTarget, input: ConfigInput) -> bool {
    match target.options {
        Some(options) => options.xtream_resolve_series && input.input_type == InputType::Xtream
            && target.writes(TargetType::M3u),
        None => false,
    }
}

/// How long to wait between the series of an input, where they are fetched for a target.
pub fn series_delay(target: &ConfigTarget, input: &ConfigInput) -> (r: Option<u16>)
    ensures
        r == (if resolves_series(*target, *input) {
            Some(target.options->0.xtream_resolve_series_delay)
        } else {
            None
        }),
{
    match &target.options {
        Some(options) => {
            if options.xtream_resolve_series && input.input_type == InputType::Xtream
                && target.has_output(TargetType::M3u) {
                Some(options.xtream_resolve_series_delay)
            } else {
                None
            }
        },
        None => None,
    }
}

/// What a target makes of a fetched playlist, given the series that were fetched for it.
pub open spec fn processed_fetched(
    fetched: FetchedView,
    series: Seq<GroupView>,
    target: ConfigTarget,
) -> FetchedView {
    let playlist = processed(fetched.playlist, target);
    FetchedView {
        playlist: if resolves_series(target, fetched.input) {
            updated_with_all(playlist, processed(series, target))
        } else {
            playlist
        },
        ..fetched
    }
}

/// What stays of a fetched playlist for the next target: itself, with the series fetched for it.
pub open spec fn resolved_fetched(
    fetched: FetchedView,
    series: Seq<GroupView>,
    target: ConfigTarget,
) -> FetchedView {
    if resolves_series(target, fetched.input) {
        FetchedView { playlist: updated_with_all(fetched.playlist, series), ..fetched }
    } else {
        fetched
    }
}

/// What a target makes of the fetched playlists.
pub open spec fn all_processed(
    playlists: Seq<FetchedView>,
    series: Seq<Seq<GroupView>>,
    target: ConfigTarget,
) -> Seq<FetchedView> {
    Seq::new(playlists.len(), |i: int| processed_fetched(playlists[i], series[i], target))
}

/// What stays of the fetched playlists for the next target.
pub open spec fn all_resolved(
    playlists: Seq<FetchedView>,
    series: Seq<Seq<GroupView>>,
    target: ConfigTarget,
) -> Seq<FetchedView> {
    Seq::new(playlists.len(), |i: int| resolved_fetched(playlists[i], series[i], target))
}

/// The statistics after the sizes of what processing left were recorded, input by input.
pub open spec fn stats_after(stats: Map<u16, StatsView>, playlists: Seq<FetchedView>) -> Map<
    u16,
    StatsView,
>
    decreases playlists.len(),
{
    if playlists.len() == 0 {
        stats
    } else {
        let last = playlists.last();
        with_processed(stats_after(stats, playlists.drop_last()), last.input.id, last.playlist)
    }
}

/// The groups of all playlists, in order.
pub open spec fn merged(playlists: Seq<FetchedView>) -> Seq<GroupView>
    decreases playlists.len(),
{
    if playlists.len() == 0 {
        Seq::empty()
    } else {
        merged(playlists.drop_last()) + playlists.last().playlist
    }
}

/// The playlist of a target, from what its stages left of the fetched playlists.
pub open spec fn made_playlist(made: Seq<FetchedView>, target: ConfigTarget) -> Seq<GroupView> {
    sorted_playlist(merged(all_affixed(made)), target.sort)
}

/// The ids under which channels stand in a programme guide, in the order of the channels.
pub open spec fn guide_ids(channels: Seq<ChannelView>) -> Seq<Seq<char>>
    decreases channels.len(),
{
    if channels.len() == 0 {
        Seq::empty()
    } else {
        let before = guide_ids(channels.drop_last());
        match channels.last().epg_channel_id {
            Some(id) => before.push(id),
            None => before,
        }
    }
}

/// The programme guides to cut down: that of each playlist which has one, to the channels of the
/// playlists up to it, where these have any id.
pub open spec fn guide_requests(playlists: Seq<FetchedView>) -> Seq<GuideRequestView>
    decreases playlists.len(),
{
    if playlists.len() == 0 {
        Seq::empty()
    } else {
        let before = guide_requests(playlists.drop_last());
        let ids = guide_ids(all_channels(merged(playlists)));
        match playlists.last().epg {
            Some(guide) => if ids.len() > 0 {
                before.push(GuideRequestView { guide, channel_ids: ids })
            } else {
                before
            },
            None => before,
        }
    }
}

/// Whether one of the patterns matches in the title.
pub open spec fn is_watched(title: Seq<char>, patterns: Seq<Pattern>) -> bool {
    exists|i: int|
        0 <= i < patterns.len() && regex_is_match((#[trigger] patterns[i])@, title)
}

/// The positions of the watched groups, in order.
pub open spec fn watched_positions(groups: Seq<GroupView>, patterns: Seq<Pattern>) -> Seq<usize>
    decreases groups.len(),
{
    if groups.len() == 0 {
        Seq::empty()
    } else {
        let before = watched_positions(groups.drop_last(), patterns);
        if is_watched(groups.last().title, patterns) {
            before.push((groups.len() - 1) as usize)
        } else {
            before
        }
    }
}

/// Whether `watch` is what a target asks for on its playlist.
pub open spec fn watches(
    watch: GroupWatch,
    groups: Seq<GroupView>,
    target: ConfigTarget,
) -> bool {
    match target.watch_re {
        Some(patterns) => if groups.len() == 0 {
            watch is Nothing
        } else if equal_ignoring_case("default"@, target.name@) {
            watch is NoUniqueName
        } else {
            &&& watch is Groups
            &&& watch->Groups_0@ == watched_positions(groups, patterns@)
        },
        None => watch is Nothing,
    }
}

/// Whether there are numbers for the groups that a target makes of a fetched playlist and the
/// series fetched for it, and their channels can be counted.
pub open spec fn within_limits(
    fetched: FetchedView,
    series: Seq<GroupView>,
    target: ConfigTarget,
) -> bool {
    &&& can_process(fetched.playlist, target)
    &&& resolves_series(target, fetched.input) ==> can_process(series, target)
    &&& channel_count(processed_fetched(fetched, series, target).playlist) <= usize::MAX
}

/// Whether all fetched playlists are within limits.
pub open spec fn all_within_limits(
    playlists: Seq<FetchedView>,
    series: Seq<Seq<GroupView>>,
    target: ConfigTarget,
) -> bool {
    forall|i: int|
        0 <= i < playlists.len() ==> within_limits(#[trigger] playlists[i], series[i], target)
}

/// What a target makes of a fetched playlist; `None` beyond limits.
fn process_fetched<'a>(
    fetched: &FetchedPlaylist<'a>,
    series: &Vec<PlaylistGroup>,
    target: &ConfigTarget,
) -> (r: Option<FetchedPlaylist<'a>>)
    ensures
        r is Some <==> within_limits(fetched@, groups_view(series@), *target),
        r is Some ==> r->0@ == processed_fetched(fetched@, groups_view(series@), *target),
{
    let input: &'a ConfigInput = fetched.input;
    let playlist = match run_pipe(clone_groups(&fetched.playlist), target) {
        Some(playlist) => playlist,
        None => {
            return None;
        },
    };
    let epg = clone_guide(&fetched.epg);
    let mut new_fetched = FetchedPlaylist { input, playlist, epg };
    if series_delay(target, input).is_some() {
        match run_pipe(clone_groups(series), target) {
            Some(new_series) => {
                new_fetched.update_with_all(&new_series);
            },
            None => {
                return None;
            },
        }
    }
    if count_channels(&new_fetched.playlist).is_none() {
        return None;
    }
    Some(new_fetched)
}

/// Appends the ids of the channels of a group.
fn collect_ids(ids: &mut Vec<String>, group: &PlaylistGroup, Ghost(before): Ghost<Seq<ChannelView>>)
    requires
        texts_view(old(ids)@) == guide_ids(before),
    ensures
        texts_view(final(ids)@) == guide_ids(before + group@.channels),
{
    let mut i: usize = 0;
    assert(before + group@.channels.take(0) =~= before);
    while i < group.channels.len()
        invariant
            i <= group.channels@.len(),
            texts_view(ids@) == guide_ids(before + group@.channels.take(i as int)),
        decreases group.channels.len() - i,
    {
        let ghost done = before + group@.channels.take(i as int);
        let ghost known = ids@;
        let channel = &group.channels[i];
        proof {
            assert(before + group@.channels.take(i + 1) =~= done.push(channel@));
            assert(done.push(channel@).drop_last() =~= done);
        }
        if let Some(id) = &channel.header.epg_channel_id {
            ids.push(id.clone());
            assert(texts_view(ids@) =~= texts_view(known).push(id@));
        }
        i = i + 1;
    }
    assert(group@.channels.take(i as int) =~= group@.channels);
}

/// The ids under which the channels of a playlist stand in a programme guide.
pub fn epg_channel_ids(playlist: &Vec<PlaylistGroup>) -> (r: Vec<String>)
    ensures
        texts_view(r@) == guide_ids(all_channels(groups_view(playlist@))),
{
    let ghost view = groups_view(playlist@);
    let mut ids: Vec<String> = Vec::new();
    let mut i: usize = 0;
    assert(view.take(0) =~= Seq::<GroupView>::empty());
    assert(texts_view(ids@) =~= Seq::<Seq<char>>::empty());
    while i < playlist.len()
        invariant
            i <= playlist@.len(),
            view == groups_view(playlist@),
            texts_view(ids@) == guide_ids(all_channels(view.take(i as int))),
        decreases playlist.len() - i,
    {
        collect_ids(&mut ids, &playlist[i], Ghost(all_channels(view.take(i as int))));
        proof {
            assert(view.take(i + 1).drop_last() =~= view.take(i as int));
            assert(view.take(i + 1).last() == playlist@[i as int]@);
        }
        i = i + 1;
    }
    assert(view.take(i as int) =~= view);
    ids
}

/// The groups of all playlists, and the programme guides to cut down.
fn merge_playlists(playlists: &Vec<FetchedPlaylist>) -> (r: (Vec<PlaylistGroup>, Vec<GuideRequest>))
    ensures
        groups_view(r.0@) == merged(fetched_view(playlists@)),
        requests_view(r.1@) == guide_requests(fetched_view(playlists@)),
{
    let ghost view = fetched_view(playlists@);
    let mut new_playlist: Vec<PlaylistGroup> = Vec::new();
    let mut requests: Vec<GuideRequest> = Vec::new();
    let mut i: usize = 0;
    assert(view.take(0) =~= Seq::<FetchedView>::empty());
    assert(groups_view(new_playlist@) =~= Seq::<GroupView>::empty());
    assert(requests_view(requests@) =~= Seq::<GuideRequestView>::empty());
    while i < playlists.len()
        invariant
            i <= playlists@.len(),
            view == fetched_view(playlists@),
            groups_view(new_playlist@) == merged(view.take(i as int)),
            requests_view(requests@) == guide_requests(view.take(i as int)),
        decreases playlists.len() - i,
    {
        let fetched = &playlists[i];
        let ghost groups = new_playlist@;
        let ghost asked = requests@;
        let mut copies = clone_groups(&fetched.playlist);
        let ghost added = copies@;
        new_playlist.append(&mut copies);
        proof {
            assert(groups_view(new_playlist@) =~= groups_view(groups) + groups_view(added));
            assert(view.take(i + 1).drop_last() =~= view.take(i as int));
            assert(view.take(i + 1).last() == fetched@);
        }
        if let Some(guide) = &fetched.epg {
            let channel_ids = epg_channel_ids(&new_playlist);
            assert(channel_ids@.len() == texts_view(channel_ids@).len());
            if !channel_ids.is_empty() {
                let request = GuideRequest { guide: guide.clone(), channel_ids };
                requests.push(request);
                assert(requests_view(requests@) =~= requests_view(asked).push(request@));
            }
        }
        i = i + 1;
    }
    assert(view.take(i as int) =~= view);
    (new_playlist, requests)
}

/// Whether one of the patterns matches in the title.
fn matches_any(title: &String, patterns: &Vec<Pattern>) -> (r: bool)
    ensures
        r == is_watched(title@, patterns@),
{
    let mut i: usize = 0;
    while i < patterns.len()
        invariant
            i <= patterns@.len(),
            forall|j: int| 0 <= j < i ==> !regex_is_match((#[trigger] patterns@[j])@, title@),
        decreases patterns.len() - i,
    {
        if patterns[i].is_match(title.as_str()) {
            return true;
        }
        i = i + 1;
    }
    false
}

/// Which groups of its playlist a target watches.
pub fn watch_groups(target: &ConfigTarget, playlist: &Vec<PlaylistGroup>) -> (r: GroupWatch)
    ensures
        watches(r, groups_view(playlist@), *target),
{
    match &target.watch_re {
        Some(patterns) => {
            if playlist.is_empty() {
                return GroupWatch::Nothing;
            }
            if same_ignoring_case("default", target.name.as_str()) {
                return GroupWatch::NoUniqueName;
            }
            let ghost view = groups_view(playlist@);
            let mut positions: Vec<usize> = Vec::new();
            let mut i: usize = 0;
            assert(view.take(0) =~= Seq::<GroupView>::empty());
            while i < playlist.len()
                invariant
                    i <= playlist@.len(),
                    view == groups_view(playlist@),
                    positions@ == watched_positions(view.take(i as int), patterns@),
                decreases playlist.len() - i,
            {
                proof {
                    assert(view.take(i + 1).drop_last() =~= view.take(i as int));
                    assert(view.take(i + 1).last() == playlist@[i as int]@);
                }
                if matches_any(&playlist[i].title, patterns) {
                    positions.push(i);
                }
                i = i + 1;
            }
            assert(view.take(i as int) =~= view);
            GroupWatch::Groups(positions)
        },
        None => GroupWatch::Nothing,
    }
}

/// Adds the series fetched for the playlists to them, and records the sizes of what the target
/// made of them.
fn keep_results<'a>(
    playlists: &mut Vec<FetchedPlaylist<'a>>,
    target: &ConfigTarget,
    series: &Vec<Vec<PlaylistGroup>>,
    made: &Vec<FetchedPlaylist<'a>>,
    stats: &mut HashMap<u16, InputStats>,
)
    requires
        series@.len() == old(playlists)@.len(),
        fetched_view(made@) == all_processed(
            fetched_view(old(playlists)@),
            series_view(series@),
            *target,
        ),
        forall|i: int|
            0 <= i < made@.len() ==> channel_count((#[trigger] made@[i])@.playlist) <= usize::MAX,
    ensures
        fetched_view(final(playlists)@) == all_resolved(
            fetched_view(old(playlists)@),
            series_view(series@),
            *target,
        ),
        stats_view(final(stats)@) == stats_after(stats_view(old(stats)@), fetched_view(made@)),
{
    let ghost start = playlists@;
    let ghost counted = stats_view(stats@);
    let ghost all = fetched_view(made@);
    let mut i: usize = 0;
    proof {
        assert(all.take(0) =~= Seq::<FetchedView>::empty());
        assert(all.len() == start.len());
        assert(made@.len() == all.len());
    }
    while i < playlists.len()
        invariant
            i <= playlists@.len(),
            playlists@.len() == start.len(),
            series@.len() == start.len(),
            made@.len() == start.len(),
            all == fetched_view(made@),
            all == all_processed(fetched_view(start), series_view(series@), *target),
            forall|j: int|
                0 <= j < made@.len() ==> channel_count((#[trigger] made@[j])@.playlist)
                    <= usize::MAX,
            forall|j: int|
                0 <= j < i ==> (#[trigger] playlists@[j])@ == resolved_fetched(
                    start[j]@,
                    groups_view(series@[j]@),
                    *target,
                ),
            forall|j: int| i <= j < start.len() ==> #[trigger] playlists@[j] == start[j],
            stats_view(stats@) == stats_after(counted, all.take(i as int)),
        decreases playlists.len() - i,
    {
        if series_delay(target, playlists[i].input).is_some() {
            let fetched = &mut playlists[i];
            fetched.update_with_all(&series[i]);
        }
        record_processed(stats, made[i].input.id, &made[i].playlist);
        proof {
            assert(all[i as int] == made@[i as int]@);
            assert(all.take(i + 1).drop_last() =~= all.take(i as int));
            assert(all.take(i + 1).last() == made@[i as int]@);
        }
        i = i + 1;
    }
    proof {
        assert(all.take(i as int) =~= all);
        assert(fetched_view(playlists@) =~= all_resolved(
            fetched_view(start),
            series_view(series@),
            *target,
        ));
    }
}

/// Makes the playlist of a target.
///
/// `series` holds, for each fetched playlist, the series that were fetched for it one by one; it
/// is read where the target resolves the series of the input. The fetched playlists are processed
/// in copies, since the next target starts from them again; only the series are added to them.
///
/// `None` where a fetched playlist is beyond limits; then nothing has changed.
pub fn process_playlist(
    playlists: &mut Vec<FetchedPlaylist>,
    target: &ConfigTarget,
    series: &Vec<Vec<PlaylistGroup>>,
    stats: &mut HashMap<u16, InputStats>,
) -> (r: Option<ProcessedTarget>)
    requires
        series@.len() == old(playlists)@.len(),
    ensures
        r is Some <==> all_within_limits(
            fetched_view(old(playlists)@),
            series_view(series@),
            *target,
        ),
        r is None ==> *final(playlists) == *old(playlists) && *final(stats) == *old(stats),
        r is Some ==> {
            let made = all_processed(
                fetched_view(old(playlists)@),
                series_view(series@),
                *target,
            );
            &&& fetched_view(final(playlists)@) == all_resolved(
                fetched_view(old(playlists)@),
                series_view(series@),
                *target,
            )
            &&& stats_view(final(stats)@) == stats_after(stats_view(old(stats)@), made)
            &&& groups_view(r->0.playlist@) == made_playlist(made, *target)
            &&& requests_view(r->0.guides@) == guide_requests(all_affixed(made))
            &&& watches(r->0.watch, groups_view(r->0.playlist@), *target)
        },
{
    let ghost view = fetched_view(playlists@);
    let ghost fetched_series = series_view(series@);
    let ghost all = all_processed(view, fetched_series, *target);
    let mut new_playlists: Vec<FetchedPlaylist> = Vec::new();
    let mut i: usize = 0;
    while i < playlists.len()
        invariant
            i <= playlists@.len(),
            series@.len() == playlists@.len(),
            new_playlists@.len() == i,
            view == fetched_view(playlists@),
            fetched_series == series_view(series@),
            all == all_processed(view, fetched_series, *target),
            forall|j: int|
                0 <= j < i ==> (#[trigger] new_playlists@[j])@ == all[j] && within_limits(
                    view[j],
                    fetched_series[j],
                    *target,
                ),
        decreases playlists.len() - i,
    {
        proof {
            assert(view[i as int] == playlists@[i as int]@);
            assert(fetched_series[i as int] == groups_view(series@[i as int]@));
        }
        match process_fetched(&playlists[i], &series[i], target) {
            Some(new_fetched) => {
                new_playlists.push(new_fetched);
            },
            None => {
                return None;
            },
        }
        i = i + 1;
    }
    proof {
        assert(fetched_view(new_playlists@) =~= all);
        assert forall|j: int| 0 <= j < view.len() implies within_limits(
            #[trigger] view[j],
            fetched_series[j],
            *target,
        ) by {
            assert(new_playlists@[j]@ == all[j]);
        }
    }
    keep_results(playlists, target, series, &new_playlists, stats);
    apply_affixes(&mut new_playlists);
    let (mut playlist, guides) = merge_playlists(&new_playlists);
    sort_playlist(target, &mut playlist);
    let watch = watch_groups(target, &playlist);
    Some(ProcessedTarget { playlist, guides, watch })
}

/// A target leaves the fetched playlists as they are for the next one, but for the series that it
/// had fetched; inputs and guides it leaves in any case.
pub proof fn targets_leave_playlists(
    playlists: Seq<FetchedView>,
    series: Seq<Seq<GroupView>>,
    target: ConfigTarget,
)
    ensures
        all_resolved(playlists, series, target).len() == playlists.len(),
        forall|i: int|
            0 <= i < playlists.len() ==> {
                let left = #[trigger] all_resolved(playlists, series, target)[i];
                &&& left.input == playlists[i].input
                &&& left.epg == playlists[i].epg
                &&& !resolves_series(target, playlists[i].input) ==> left == playlists[i]
            },
        (forall|i: int|
            0 <= i < playlists.len() ==> !resolves_series(
                target,
                (#[trigger] playlists[i]).input,
            )) ==> all_resolved(playlists, series, target) == playlists,
{
    if forall|i: int|
        0 <= i < playlists.len() ==> !resolves_series(target, (#[trigger] playlists[i]).input) {
        assert(all_resolved(playlists, series, target) =~= playlists);
    }
}

/// The channels of all playlists.
pub open spec fn total_channels(playlists: Seq<FetchedView>) -> nat
    decreases playlists.len(),
{
    if playlists.len() == 0 {
        0
    } else {
        total_channels(playlists.drop_last()) + channel_count(playlists.last().playlist)
    }
}

/// Merging keeps every channel.
pub proof fn merged_count(playlists: Seq<FetchedView>)
    ensures
        channel_count(merged(playlists)) == total_channels(playlists),
    decreases playlists.len(),
{
    if playlists.len() > 0 {
        merged_count(playlists.drop_last());
        lemma_count_of_both(merged(playlists.drop_last()), playlists.last().playlist);
    }
}

proof fn lemma_count_of_both(a: Seq<GroupView>, b: Seq<GroupView>)
    ensures
        channel_count(a + b) == channel_count(a) + channel_count(b),
    decreases b.len(),
{
    if b.len() > 0 {
        assert((a + b).drop_last() =~= a + b.drop_last());
        lemma_count_of_both(a, b.drop_last());
    } else {
        assert(a + b =~= a);
    }
}

/// What a target makes of a fetched playlist has no more channels than the playlist and the series
/// fetched for it.
pub proof fn processed_fetched_at_most(
    fetched: FetchedView,
    series: Seq<GroupView>,
    target: ConfigTarget,
)
    ensures
        channel_count(processed_fetched(fetched, series, target).playlist) <= channel_count(
            fetched.playlist,
        ) + if resolves_series(target, fetched.input) {
            channel_count(series)
        } else {
            0
        },
{
    processed_at_most(fetched.playlist, target);
    processed_at_most(series, target);
    updated_with_all_count(processed(fetched.playlist, target), processed(series, target));
}

/// The ids under which channels stand in a programme guide are exactly those that channels have.
pub proof fn guide_ids_are(channels: Seq<ChannelView>)
    ensures
        forall|id: Seq<char>|
            #[trigger] guide_ids(channels).contains(id) <==> exists|i: int|
                0 <= i < channels.len() && (#[trigger] channels[i]).epg_channel_id == Some(id),
    decreases channels.len(),
{
    if channels.len() > 0 {
        let shorter = channels.drop_last();
        let before = guide_ids(shorter);
        let all = guide_ids(channels);
        guide_ids_are(shorter);
        assert forall|id: Seq<char>| #[trigger] all.contains(id) <==> exists|i: int|
            0 <= i < channels.len() && (#[trigger] channels[i]).epg_channel_id == Some(id) by {
            if all.contains(id) {
                let k = choose|k: int| 0 <= k < all.len() && all[k] == id;
                if k < before.len() {
                    assert(before.contains(before[k]));
                    let i = choose|i: int|
                        0 <= i < shorter.len() && (#[trigger] shorter[i]).epg_channel_id == Some(
                            id,
                        );
                    assert(channels[i].epg_channel_id == Some(id));
                } else {
                    assert(channels[channels.len() - 1].epg_channel_id == Some(id));
                }
            }
            if exists|i: int|
                0 <= i < channels.len() && (#[trigger] channels[i]).epg_channel_id == Some(id) {
                let i = choose|i: int|
                    0 <= i < channels.len() && (#[trigger] channels[i]).epg_channel_id == Some(id);
                if i < shorter.len() {
                    assert(shorter[i].epg_channel_id == Some(id));
                    assert(before.contains(id));
                    let k = choose|k: int| 0 <= k < before.len() && before[k] == id;
                    assert(all[k] == id);
                } else {
                    assert(all[before.len() as int] == id);
                }
            }
        }
    }
}

/// The watched positions are exactly those of the groups whose title a pattern matches, each once
/// and in order.
pub proof fn watched_positions_are(groups: Seq<GroupView>, patterns: Seq<Pattern>)
    requires
        groups.len() <= usize::MAX,
    ensures
        forall|p: usize|
            #[trigger] watched_positions(groups, patterns).contains(p) <==> p < groups.len()
                && is_watched(groups[p as int].title, patterns),
        forall|i: int, j: int|
            0 <= i < j < watched_positions(groups, patterns).len() ==> (
            #[trigger] watched_positions(groups, patterns)[i]) < #[trigger] watched_positions(
                groups,
                patterns,
            )[j],
    decreases groups.len(),
{
    if groups.len() > 0 {
        let shorter = groups.drop_last();
        let before = watched_positions(shorter, patterns);
        let all = watched_positions(groups, patterns);
        watched_positions_are(shorter, patterns);
        assert forall|p: usize| #[trigger] all.contains(p) <==> p < groups.len() && is_watched(
            groups[p as int].title,
            patterns,
        ) by {
            if all.contains(p) {
                let k = choose|k: int| 0 <= k < all.len() && all[k] == p;
                if k < before.len() {
                    assert(before.contains(before[k]));
                }
            }
            if p < groups.len() && is_watched(groups[p as int].title, patterns) {
                if p < shorter.len() {
                    assert(before.contains(p));
                    let k = choose|k: int| 0 <= k < before.len() && before[k] == p;
                    assert(all[k] == p);
                } else {
                    assert(all[before.len() as int] == p);
                }
            }
        }
        assert forall|i: int, j: int| 0 <= i < j < all.len() implies (#[trigger] all[i])
            < #[trigger] all[j] by {
            assert(before.contains(before[i]));
        }
    }
}

/// Affixing, merging and sorting keep every channel: the playlist of a target has as many as the
/// stages left of the fetched playlists.
pub proof fn target_keeps_every_channel(made: Seq<FetchedView>, target: ConfigTarget)
    ensures
        channel_count(made_playlist(made, target)) == total_channels(made),
{
    sorted_playlist_count(merged(all_affixed(made)), target.sort);
    merged_count(all_affixed(made));
    lemma_affixed_total(made);
}

proof fn lemma_affixed_total(made: Seq<FetchedView>)
    ensures
        total_channels(all_affixed(made)) == total_channels(made),
    decreases made.len(),
{
    if made.len() > 0 {
        lemma_affixed_total(made.drop_last());
        affixed_count(made.last());
        assert(all_affixed(made).drop_last() =~= all_affixed(made.drop_last()));
        assert(all_affixed(made).last() == affixed(made.last()));
    }
}

/// The playlist of a target has no groups exactly where its stages left none of any fetched
/// playlist. Then no programme guide is asked for, and nothing is watched.
pub proof fn nothing_is_asked_for_without_groups(made: Seq<FetchedView>, target: ConfigTarget)
    ensures
        made_playlist(made, target).len() == 0 <==> forall|i: int|
            0 <= i < made.len() ==> (#[trigger] made[i]).playlist.len() == 0,
        made_playlist(made, target).len() == 0 ==> guide_requests(all_affixed(made)).len() == 0,
        made_playlist(made, target).len() == 0 ==> forall|watch: GroupWatch| #[trigger]
            watches(watch, made_playlist(made, target), target) ==> watch is Nothing,
{
    let ready = all_affixed(made);
    sorted_playlist_length(merged(ready), target.sort);
    lemma_nothing_merged(ready);
    assert forall|i: int| 0 <= i < made.len() implies (#[trigger] made[i]).playlist.len()
        == ready[i].playlist.len() by {
        assert(ready[i] == affixed(made[i]));
    }
    if forall|i: int| 0 <= i < made.len() ==> (#[trigger] made[i]).playlist.len() == 0 {
        assert forall|i: int| 0 <= i < ready.len() implies (#[trigger] ready[i]).playlist.len()
            == 0 by {
            assert(made[i].playlist.len() == 0);
        }
    }
    if made_playlist(made, target).len() == 0 {
        assert forall|i: int| 0 <= i < made.len() implies (#[trigger] made[i]).playlist.len()
            == 0 by {
            assert(ready[i].playlist.len() == 0);
        }
    }
}

proof fn lemma_nothing_merged(playlists: Seq<FetchedView>)
    ensures
        merged(playlists).len() == 0 <==> forall|i: int|
            0 <= i < playlists.len() ==> (#[trigger] playlists[i]).playlist.len() == 0,
        merged(playlists).len() == 0 ==> guide_requests(playlists).len() == 0,
    decreases playlists.len(),
{
    if playlists.len() > 0 {
        let shorter = playlists.drop_last();
        lemma_nothing_merged(shorter);
        if merged(playlists).len() == 0 {
            assert forall|i: int| 0 <= i < playlists.len() implies (
            #[trigger] playlists[i]).playlist.len() == 0 by {
                if i < shorter.len() {
                    assert(shorter[i].playlist.len() == 0);
                }
            }
            assert(all_channels(merged(playlists)) =~= Seq::<ChannelView>::empty());
        }
        if forall|i: int|
            0 <= i < playlists.len() ==> (#[trigger] playlists[i]).playlist.len() == 0 {
            assert forall|i: int| 0 <= i < shorter.len() implies (
            #[trigger] shorter[i]).playlist.len() == 0 by {
                assert(playlists[i].playlist.len() == 0);
            }
            assert(playlists[playlists.len() - 1].playlist.len() == 0);
        }
    }
}

} // verus!
