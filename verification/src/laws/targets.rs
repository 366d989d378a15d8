//! Targets: what is made of fetched playlists, which guides are asked for, and what is watched.

use vstd::prelude::*;

use crate::affix::{affixed, all_affixed};
use crate::config::{ConfigInput, ConfigTarget, InputType, TargetType};
use crate::pattern::{regex_is_match, Pattern};
use crate::pipe::{can_process, processed};
use crate::playlist::{
    all_channels, channel_count, groups_view, updated_with_all, ChannelView, FetchedView,
    GroupView, PlaylistGroup,
};
use crate::sort::sorted_playlist;
use crate::target::{
    all_processed, all_resolved, all_within_limits, guide_ids, guide_requests, is_watched,
    made_playlist, merged, processed_fetched, requests_view, resolved_fetched, resolves_series,
    series_view, watched_positions_are, watches, within_limits, GroupWatch, GuideRequest,
    GuideRequestView,
};
use crate::text::{ascii_lower, equal_ignoring_case, texts_view};

verus! {

/// Guide requests and series are seen whole, one by one.
pub proof fn requests_and_series_are_seen_whole(
    requests: Seq<GuideRequest>,
    series: Seq<Vec<PlaylistGroup>>,
)
    ensures
        requests_view(requests).len() == requests.len(),
        forall|i: int|
            0 <= i < requests.len() ==> (#[trigger] requests_view(requests)[i]).guide
                == requests[i].guide.file@ && requests_view(requests)[i].channel_ids == texts_view(
                requests[i].channel_ids@,
            ),
        series_view(series).len() == series.len(),
        forall|i: int|
            0 <= i < series.len() ==> #[trigger] series_view(series)[i] == groups_view(series[i]@),
{
}

/// Series are fetched exactly for inputs of the Xtream kind, by targets whose options ask for it
/// and that write an M3u playlist.
pub proof fn series_are_fetched_where_asked_for(target: ConfigTarget, input: ConfigInput)
    ensures
        resolves_series(target, input) <==> {
            &&& input.input_type == InputType::Xtream
            &&& target.options is Some
            &&& target.options->0.xtream_resolve_series
            &&& exists|i: int|
                0 <= i < target.output@.len() && (#[trigger] target.output@[i]).target
                    == TargetType::M3u
        },
{
}

/// Without series a target processes the fetched playlist; with series it adds to that the series,
/// processed on their own. Input and guide stay.
pub proof fn fetched_playlists_are_processed(
    fetched: FetchedView,
    series: Seq<GroupView>,
    target: ConfigTarget,
)
    ensures
        ({
            let made = processed_fetched(fetched, series, target);
            &&& made.input == fetched.input
            &&& made.epg == fetched.epg
            &&& !resolves_series(target, fetched.input) ==> made.playlist == processed(
                fetched.playlist,
                target,
            )
            &&& resolves_series(target, fetched.input) ==> made.playlist == updated_with_all(
                processed(fetched.playlist, target),
                processed(series, target),
            )
        }),
{
}

/// A fetched playlist keeps the series that were fetched for it as they came, and else stays.
pub proof fn fetched_playlists_keep_their_series(
    fetched: FetchedView,
    series: Seq<GroupView>,
    target: ConfigTarget,
)
    ensures
        ({
            let kept = resolved_fetched(fetched, series, target);
            &&& kept.input == fetched.input
            &&& kept.epg == fetched.epg
            &&& !resolves_series(target, fetched.input) ==> kept.playlist == fetched.playlist
            &&& resolves_series(target, fetched.input) ==> kept.playlist == updated_with_all(
                fetched.playlist,
                series,
            )
        }),
{
}

/// Every fetched playlist is processed on its own, with its own series.
pub proof fn playlists_are_processed_one_by_one(
    playlists: Seq<FetchedView>,
    series: Seq<Seq<GroupView>>,
    target: ConfigTarget,
)
    ensures
        all_processed(playlists, series, target).len() == playlists.len(),
        all_resolved(playlists, series, target).len() == playlists.len(),
        forall|i: int|
            0 <= i < playlists.len() ==> #[trigger] all_processed(playlists, series, target)[i]
                == processed_fetched(playlists[i], series[i], target),
        forall|i: int|
            0 <= i < playlists.len() ==> #[trigger] all_resolved(playlists, series, target)[i]
                == resolved_fetched(playlists[i], series[i], target),
{
}

/// The playlists are within limits exactly where all that is processed has numbers for its groups
/// and every result can be counted.
pub proof fn limits_are_those_of_every_playlist(
    playlists: Seq<FetchedView>,
    series: Seq<Seq<GroupView>>,
    target: ConfigTarget,
)
    ensures
        all_within_limits(playlists, series, target) <==> (forall|i: int|
            0 <= i < playlists.len() ==> can_process((#[trigger] playlists[i]).playlist, target))
            && (forall|i: int|
            0 <= i < playlists.len() && resolves_series(target, (#[trigger] playlists[i]).input)
                ==> can_process(series[i], target)) && (forall|i: int|
            0 <= i < playlists.len() ==> channel_count(
                (#[trigger] all_processed(playlists, series, target)[i]).playlist,
            ) <= usize::MAX),
{
    let made = all_processed(playlists, series, target);
    if all_within_limits(playlists, series, target) {
        assert forall|i: int| 0 <= i < playlists.len() implies channel_count(
            (#[trigger] made[i]).playlist,
        ) <= usize::MAX by {
            assert(within_limits(playlists[i], series[i], target));
        }
    }
    if (forall|i: int|
        0 <= i < playlists.len() ==> can_process((#[trigger] playlists[i]).playlist, target)) && (
    forall|i: int|
        0 <= i < playlists.len() && resolves_series(target, (#[trigger] playlists[i]).input)
            ==> can_process(series[i], target)) && (forall|i: int|
        0 <= i < playlists.len() ==> channel_count((#[trigger] made[i]).playlist) <= usize::MAX) {
        assert forall|i: int| 0 <= i < playlists.len() implies within_limits(
            #[trigger] playlists[i],
            series[i],
            target,
        ) by {
            assert(channel_count(made[i].playlist) <= usize::MAX);
        }
    }
}

/// The groups of playlists are those of the one list and then those of the other.
pub proof fn playlists_are_merged_in_order(first: Seq<FetchedView>, second: Seq<FetchedView>)
    ensures
        merged(Seq::empty()) == Seq::<GroupView>::empty(),
        first.len() == 1 ==> merged(first) == first[0].playlist,
        merged(first + second) == merged(first) + merged(second),
    decreases second.len(),
{
    if first.len() == 1 {
        assert(first.drop_last() =~= Seq::<FetchedView>::empty());
        assert(merged(first.drop_last()) =~= Seq::<GroupView>::empty());
        assert(merged(first) =~= first[0].playlist);
    }
    if second.len() > 0 {
        assert((first + second).drop_last() =~= first + second.drop_last());
        playlists_are_merged_in_order(first, second.drop_last());
        assert(merged(first + second) =~= merged(first) + merged(second));
    } else {
        assert(first + second =~= first);
        assert(merged(first + second) =~= merged(first) + merged(second));
    }
}

/// The playlist of a target that does not sort is made of the affixed playlists, one after the
/// other; that of one that sorts is the same, sorted.
pub proof fn target_playlists_are_affixed_merged_and_sorted(
    first: Seq<FetchedView>,
    second: Seq<FetchedView>,
    target: ConfigTarget,
)
    ensures
        ({
            let unsorted = ConfigTarget { sort: None, ..target };
            &&& made_playlist(first, target) == sorted_playlist(
                made_playlist(first, unsorted),
                target.sort,
            )
            &&& made_playlist(first + second, unsorted) == made_playlist(first, unsorted)
                + made_playlist(second, unsorted)
            &&& first.len() == 1 ==> made_playlist(first, unsorted) == affixed(first[0]).playlist
        }),
{
    let a = all_affixed(first);
    let b = all_affixed(second);
    playlists_are_merged_in_order(a, b);
    assert(all_affixed(first + second) =~= a + b);
}

/// The ids of channels are those of the one list and then those of the other; a channel alone has
/// its own, if it has one.
pub proof fn guide_ids_stand_in_order(first: Seq<ChannelView>, second: Seq<ChannelView>)
    ensures
        guide_ids(first + second) == guide_ids(first) + guide_ids(second),
        first.len() == 1 && first[0].epg_channel_id is None ==> guide_ids(first).len() == 0,
        first.len() == 1 && first[0].epg_channel_id is Some ==> guide_ids(first) == seq![
            first[0].epg_channel_id->0,
        ],
    decreases second.len(),
{
    if first.len() == 1 {
        assert(first.drop_last() =~= Seq::<ChannelView>::empty());
        assert(guide_ids(first.drop_last()) =~= Seq::<Seq<char>>::empty());
        if first[0].epg_channel_id is Some {
            assert(guide_ids(first) =~= seq![first[0].epg_channel_id->0]);
        }
    }
    if second.len() > 0 {
        assert((first + second).drop_last() =~= first + second.drop_last());
        guide_ids_stand_in_order(first, second.drop_last());
        assert(guide_ids(first + second) =~= guide_ids(first) + guide_ids(second));
    } else {
        assert(first + second =~= first);
        assert(guide_ids(first + second) =~= guide_ids(first) + guide_ids(second));
    }
}

/// A playlist more asks for its guide exactly where it has one and a channel up to its end has an
/// id; then for all ids up to there. What was asked for before stays.
pub proof fn guides_are_asked_for_with_the_channels_so_far(
    playlists: Seq<FetchedView>,
    last: FetchedView,
)
    ensures
        guide_requests(Seq::empty()).len() == 0,
        ({
            let channels = all_channels(merged(playlists) + last.playlist);
            let before = guide_requests(playlists);
            let after = guide_requests(playlists.push(last));
            if last.epg is Some && exists|i: int|
                0 <= i < channels.len() && (#[trigger] channels[i]).epg_channel_id is Some {
                after == before.push(
                    GuideRequestView { guide: last.epg->0, channel_ids: guide_ids(channels) },
                )
            } else {
                after == before
            }
        }),
{
    let all = playlists.push(last);
    let channels = all_channels(merged(playlists) + last.playlist);
    assert(all.drop_last() =~= playlists);
    assert(merged(all) == merged(playlists) + last.playlist);
    lemma_any_id(channels);
}

proof fn lemma_any_id(channels: Seq<ChannelView>)
    ensures
        guide_ids(channels).len() > 0 <==> exists|i: int|
            0 <= i < channels.len() && (#[trigger] channels[i]).epg_channel_id is Some,
    decreases channels.len(),
{
    if channels.len() > 0 {
        let shorter = channels.drop_last();
        lemma_any_id(shorter);
        if guide_ids(channels).len() > 0 {
            if channels.last().epg_channel_id is Some {
                assert(channels[channels.len() - 1].epg_channel_id is Some);
            } else {
                let i = choose|i: int|
                    0 <= i < shorter.len() && (#[trigger] shorter[i]).epg_channel_id is Some;
                assert(channels[i].epg_channel_id is Some);
            }
        }
        if exists|i: int|
            0 <= i < channels.len() && (#[trigger] channels[i]).epg_channel_id is Some {
            let i = choose|i: int|
                0 <= i < channels.len() && (#[trigger] channels[i]).epg_channel_id is Some;
            if i < shorter.len() {
                assert(shorter[i].epg_channel_id is Some);
            }
        }
    }
}

/// A title is watched for one of two lists of patterns exactly where it is for either, and for a
/// single pattern where that matches.
pub proof fn any_pattern_is_enough(title: Seq<char>, first: Seq<Pattern>, second: Seq<Pattern>)
    ensures
        is_watched(title, first + second) <==> is_watched(title, first) || is_watched(
            title,
            second,
        ),
        first.len() == 0 ==> !is_watched(title, first),
        first.len() == 1 ==> (is_watched(title, first) <==> regex_is_match(first[0]@, title)),
{
    let both = first + second;
    if is_watched(title, both) {
        let i = choose|i: int|
            0 <= i < both.len() && regex_is_match((#[trigger] both[i])@, title);
        if i < first.len() {
            assert(regex_is_match(first[i]@, title));
        } else {
            assert(regex_is_match(second[i - first.len()]@, title));
        }
    }
    if is_watched(title, first) {
        let i = choose|i: int|
            0 <= i < first.len() && regex_is_match((#[trigger] first[i])@, title);
        assert(regex_is_match(both[i]@, title));
    }
    if is_watched(title, second) {
        let i = choose|i: int|
            0 <= i < second.len() && regex_is_match((#[trigger] second[i])@, title);
        assert(regex_is_match(both[first.len() + i]@, title));
    }
    if first.len() == 1 && regex_is_match(first[0]@, title) {
        assert(is_watched(title, first));
    }
}

/// A target with patterns and groups watches exactly the groups whose title a pattern matches, each
/// once and in order, unless its name is that of no target in particular; else nothing.
pub proof fn matching_groups_are_watched(
    watch: GroupWatch,
    groups: Seq<GroupView>,
    target: ConfigTarget,
)
    requires
        watches(watch, groups, target),
        groups.len() <= usize::MAX,
    ensures
        watch is Nothing <==> target.watch_re is None || groups.len() == 0,
        watch is NoUniqueName <==> target.watch_re is Some && groups.len() > 0
            && equal_ignoring_case(target.name@, "default"@),
        watch is Groups ==> {
            let positions = watch->Groups_0@;
            let patterns = target.watch_re->0@;
            &&& forall|p: usize| #[trigger]
                positions.contains(p) <==> p < groups.len() && exists|i: int|
                    0 <= i < patterns.len() && regex_is_match(
                        (#[trigger] patterns[i])@,
                        groups[p as int].title,
                    )
            &&& forall|i: int, j: int|
                0 <= i < j < positions.len() ==> (#[trigger] positions[i]) < (
                #[trigger] positions[j])
        },
{
    if let Some(patterns) = target.watch_re {
        watched_positions_are(groups, patterns@);
        let name = target.name@;
        assert(equal_ignoring_case("default"@, name) <==> equal_ignoring_case(
            name,
            "default"@,
        )) by {
            if equal_ignoring_case("default"@, name) {
                assert forall|i: int| 0 <= i < name.len() implies ascii_lower(
                    #[trigger] name[i],
                ) == ascii_lower("default"@[i]) by {
                    assert(ascii_lower("default"@[i]) == ascii_lower(
                        name[i],
                    ));
                }
            }
            if equal_ignoring_case(name, "default"@) {
                assert forall|i: int| 0 <= i < "default"@.len() implies ascii_lower(
                    #[trigger] "default"@[i],
                ) == ascii_lower(name[i]) by {
                    assert(ascii_lower(name[i]) == ascii_lower(
                        "default"@[i],
                    ));
                }
            }
        }
    }
}

} // verus!
