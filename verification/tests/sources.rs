use std::collections::HashMap;

use playlist_processor::config::{
    ConfigInput, ConfigSource, ConfigTarget, ConfigTargetOptions, InputType, ProcessTargets,
    ProcessingOrder, TargetOutput, TargetType,
};
use playlist_processor::error::{M3uFilterError, M3uFilterErrorKind};
use playlist_processor::filter::Filter;
use playlist_processor::pattern::Pattern;
use playlist_processor::persist::{persist_playlist, PersistAction, PersistReply, PersistState};
use playlist_processor::playlist::{
    FetchedPlaylist, ItemField, PlaylistGroup, PlaylistItem, PlaylistItemHeader, TVGuide,
    XtreamCluster,
};
use playlist_processor::source::{
    is_input_enabled, is_target_enabled, SourceAction, SourceRun,
};
use playlist_processor::stats::{
    count_channels, into_list, measure, InputStats, PlaylistStats,
};
use playlist_processor::target::{
    epg_channel_ids, process_playlist, series_delay, watch_groups, GroupWatch,
};

fn pattern(source: &str) -> Pattern {
    Pattern::new(source.to_string()).unwrap()
}

fn channel(name: &str, group: &str, epg: Option<&str>) -> PlaylistItem {
    PlaylistItem {
        header: PlaylistItemHeader {
            id: name.to_string(),
            name: name.to_string(),
            title: name.to_string(),
            group: group.to_string(),
            logo: "".to_string(),
            url: name.to_string(),
            epg_channel_id: epg.map(|e| e.to_string()),
            xtream_cluster: XtreamCluster::Live,
        },
    }
}

fn group(id: u32, title: &str, channels: &[(&str, Option<&str>)]) -> PlaylistGroup {
    PlaylistGroup {
        id,
        title: title.to_string(),
        channels: channels.iter().map(|(name, epg)| channel(name, title, *epg)).collect(),
        xtream_cluster: XtreamCluster::Live,
    }
}

fn target(id: u16, enabled: bool) -> ConfigTarget {
    ConfigTarget {
        id,
        enabled,
        name: format!("target {}", id),
        filter: Filter::FieldComparison(ItemField::Name, pattern("^[^x]")),
        rename: None,
        mapping: None,
        sort: None,
        watch_re: None,
        processing_order: ProcessingOrder::Frm,
        options: None,
        output: vec![],
    }
}

fn input(id: u16, enabled: bool, input_type: InputType) -> ConfigInput {
    ConfigInput {
        id,
        enabled,
        input_type,
        name: None,
        url: format!("http://{}", id),
        prefix: None,
        suffix: None,
    }
}

fn nothing_asked_for() -> ProcessTargets {
    ProcessTargets { enabled: false, inputs: vec![], targets: vec![] }
}

fn failure(message: &str) -> M3uFilterError {
    M3uFilterError::new(M3uFilterErrorKind::Info, message.to_string())
}

fn messages(errors: &[M3uFilterError]) -> Vec<String> {
    errors.iter().map(|e| e.message.clone()).collect()
}

fn shape(playlist: &[PlaylistGroup]) -> Vec<(u32, String, Vec<String>)> {
    playlist
        .iter()
        .map(|g| {
            let names = g.channels.iter().map(|c| c.header.name.clone()).collect();
            (g.id, g.title.clone(), names)
        })
        .collect()
}

fn entry(id: u32, title: &str, names: &[&str]) -> (u32, String, Vec<String>) {
    (id, title.to_string(), names.iter().map(|n| n.to_string()).collect())
}

fn size(group_count: usize, channel_count: usize) -> PlaylistStats {
    PlaylistStats { group_count, channel_count }
}

fn stats_of(id: u16) -> InputStats {
    InputStats {
        name: format!("input {}", id),
        input_type: InputType::M3u,
        error_count: 0,
        raw_stats: size(9, 9),
        processed_stats: size(0, 0),
    }
}

#[test]
fn enabled_inputs_are_used_whatever_the_user_asked_for() {
    let user = ProcessTargets { enabled: true, inputs: vec![7], targets: vec![] };
    assert!(is_input_enabled(1, true, 3, &user));
    assert!(!is_input_enabled(1, false, 7, &user));
}

#[test]
fn an_input_is_forced_where_none_is_enabled() {
    let user = ProcessTargets { enabled: true, inputs: vec![7], targets: vec![] };
    assert!(is_input_enabled(0, false, 7, &user));
    assert!(!is_input_enabled(0, false, 3, &user));
    let ignored = ProcessTargets { enabled: false, inputs: vec![7], targets: vec![] };
    assert!(!is_input_enabled(0, false, 7, &ignored));
}

#[test]
fn the_user_overrides_which_targets_are_made() {
    let user = ProcessTargets { enabled: true, inputs: vec![], targets: vec![2] };
    assert!(is_target_enabled(&target(2, false), &user));
    assert!(!is_target_enabled(&target(3, true), &user));
    assert!(is_target_enabled(&target(3, true), &nothing_asked_for()));
    assert!(!is_target_enabled(&target(2, false), &nothing_asked_for()));
}

#[test]
fn a_playlist_is_measured() {
    let playlist = vec![group(1, "a", &[("A", None), ("B", None)]), group(2, "b", &[])];
    assert_eq!(measure(&playlist), size(2, 2));
    assert_eq!(count_channels(&playlist), Some(2));
    assert_eq!(count_channels(&vec![]), Some(0));
}

#[test]
fn statistics_are_listed_once_each() {
    let mut stats = HashMap::new();
    for id in [3u16, 1, 2] {
        stats.insert(id, stats_of(id));
    }
    let mut names: Vec<String> = into_list(stats).into_iter().map(|s| s.name).collect();
    names.sort();
    assert_eq!(names, vec!["input 1", "input 2", "input 3"]);
}

#[test]
fn channels_are_added_to_the_group_of_the_same_number() {
    let source = input(1, true, InputType::M3u);
    let mut fetched = FetchedPlaylist {
        input: &source,
        playlist: vec![group(1, "a", &[("A", None)]), group(2, "b", &[("B", None)])],
        epg: None,
    };
    fetched.update_playlist(&group(2, "other title", &[("C", None)]));
    fetched.update_playlist(&group(3, "c", &[("D", None)]));
    assert_eq!(
        shape(&fetched.playlist),
        vec![entry(1, "a", &["A"]), entry(2, "b", &["B", "C"]), entry(3, "c", &["D"])]
    );
}

#[test]
fn series_are_fetched_for_xtream_inputs_and_m3u_outputs() {
    let resolving = |resolve: bool, output: TargetType| {
        let mut t = target(1, true);
        t.options = Some(ConfigTargetOptions {
            xtream_resolve_series: resolve,
            xtream_resolve_series_delay: 4,
        });
        t.output = vec![TargetOutput { target: output, filename: None }];
        t
    };
    let xtream = input(1, true, InputType::Xtream);
    let m3u = input(1, true, InputType::M3u);
    assert_eq!(series_delay(&resolving(true, TargetType::M3u), &xtream), Some(4));
    assert_eq!(series_delay(&resolving(false, TargetType::M3u), &xtream), None);
    assert_eq!(series_delay(&resolving(true, TargetType::Strm), &xtream), None);
    assert_eq!(series_delay(&resolving(true, TargetType::M3u), &m3u), None);
    assert_eq!(series_delay(&target(1, true), &xtream), None);
}

#[test]
fn the_ids_of_the_channels_are_collected_in_order() {
    let playlist = vec![
        group(1, "a", &[("A", Some("a.de")), ("B", None)]),
        group(2, "b", &[("C", Some("c.de")), ("D", Some("a.de"))]),
    ];
    assert_eq!(epg_channel_ids(&playlist), vec!["a.de", "c.de", "a.de"]);
}

fn watched(watch: GroupWatch) -> Option<Vec<usize>> {
    match watch {
        GroupWatch::Groups(positions) => Some(positions),
        _ => None,
    }
}

#[test]
fn groups_with_a_matching_title_are_watched() {
    let playlist = vec![group(1, "News", &[]), group(2, "Sports", &[]), group(3, "Films", &[])];
    let mut t = target(1, true);
    assert!(matches!(watch_groups(&t, &playlist), GroupWatch::Nothing));
    t.watch_re = Some(vec![pattern("^F"), pattern("^N")]);
    assert_eq!(watched(watch_groups(&t, &playlist)), Some(vec![0, 2]));
    assert!(matches!(watch_groups(&t, &vec![]), GroupWatch::Nothing));
    t.name = "Default".to_string();
    assert!(matches!(watch_groups(&t, &playlist), GroupWatch::NoUniqueName));
}

#[test]
fn a_target_is_made_from_all_playlists() {
    let first = input(1, true, InputType::M3u);
    let second = input(2, true, InputType::M3u);
    let third = input(3, true, InputType::M3u);
    let mut playlists = vec![
        FetchedPlaylist {
            input: &first,
            playlist: vec![group(1, "b", &[("A", None), ("xA", None)])],
            epg: Some(TVGuide { file: "first".to_string() }),
        },
        FetchedPlaylist {
            input: &second,
            playlist: vec![group(1, "a", &[("B", Some("b.de"))]), group(2, "c", &[("xB", None)])],
            epg: Some(TVGuide { file: "second".to_string() }),
        },
        FetchedPlaylist { input: &third, playlist: vec![group(7, "d", &[("C", None)])], epg: None },
    ];
    let mut stats = HashMap::new();
    stats.insert(1u16, stats_of(1));
    stats.insert(2u16, stats_of(2));
    let t = target(1, true);
    let series = vec![vec![group(9, "ignored", &[("S", None)])], vec![], vec![]];
    let made = process_playlist(&mut playlists, &t, &series, &mut stats).unwrap();
    assert_eq!(
        shape(&made.playlist),
        vec![entry(1, "b", &["A"]), entry(1, "a", &["B"]), entry(7, "d", &["C"])]
    );
    assert_eq!(made.guides.len(), 1);
    assert_eq!(made.guides[0].guide.file, "second");
    assert_eq!(made.guides[0].channel_ids, vec!["b.de"]);
    assert!(matches!(made.watch, GroupWatch::Nothing));
    assert_eq!(shape(&playlists[0].playlist), vec![entry(1, "b", &["A", "xA"])]);
    assert_eq!(stats[&1].processed_stats, size(1, 1));
    assert_eq!(stats[&1].raw_stats, size(9, 9));
    assert_eq!(stats[&2].processed_stats, size(1, 1));
    assert!(!stats.contains_key(&3));
}

#[test]
fn resolved_series_stay_for_the_next_target() {
    let source = input(1, true, InputType::Xtream);
    let mut playlists = vec![FetchedPlaylist {
        input: &source,
        playlist: vec![group(1, "a", &[("A", None)])],
        epg: None,
    }];
    let mut t = target(1, true);
    t.options = Some(ConfigTargetOptions {
        xtream_resolve_series: true,
        xtream_resolve_series_delay: 0,
    });
    t.output = vec![TargetOutput { target: TargetType::M3u, filename: None }];
    let mut stats = HashMap::new();
    stats.insert(1u16, stats_of(1));
    let series = vec![vec![group(1, "a", &[("S", None), ("xS", None)])]];
    let made = process_playlist(&mut playlists, &t, &series, &mut stats).unwrap();
    assert_eq!(shape(&made.playlist), vec![entry(1, "a", &["A", "S"])]);
    assert_eq!(shape(&playlists[0].playlist), vec![entry(1, "a", &["A", "S", "xS"])]);
    assert_eq!(stats[&1].processed_stats, size(1, 2));
}

#[test]
fn a_target_beyond_limits_changes_nothing() {
    let source = input(1, true, InputType::M3u);
    let mut crowded = group(u32::MAX, "a", &[("A", None), ("B", None)]);
    crowded.channels[1].header.group = "b".to_string();
    let mut playlists =
        vec![FetchedPlaylist { input: &source, playlist: vec![crowded], epg: None }];
    let mut t = target(1, true);
    t.mapping = Some(vec![]);
    let mut stats = HashMap::new();
    stats.insert(1u16, stats_of(1));
    assert!(process_playlist(&mut playlists, &t, &vec![vec![]], &mut stats).is_none());
    assert_eq!(shape(&playlists[0].playlist), vec![entry(u32::MAX, "a", &["A", "B"])]);
    assert_eq!(stats[&1].processed_stats, size(0, 0));
}

fn three_outputs() -> ConfigTarget {
    let mut t = target(1, true);
    t.output = vec![
        TargetOutput { target: TargetType::M3u, filename: Some("a".to_string()) },
        TargetOutput { target: TargetType::Strm, filename: None },
        TargetOutput { target: TargetType::Xtream, filename: None },
    ];
    t
}

#[test]
fn every_output_gets_playlist_and_guide() {
    let t = three_outputs();
    let playlist = vec![group(1, "a", &[("A", None)])];
    let mut state = PersistState::new();
    let mut actions = vec![persist_playlist(&playlist, &t, &mut state, PersistReply::Nothing)];
    while actions[actions.len() - 1] != PersistAction::Done {
        actions.push(persist_playlist(&playlist, &t, &mut state, PersistReply::Written));
    }
    assert_eq!(
        actions,
        vec![
            PersistAction::WriteM3u(0),
            PersistAction::WriteEpg(0),
            PersistAction::WriteStrm(1),
            PersistAction::WriteEpg(1),
            PersistAction::WriteXtream(2),
            PersistAction::WriteEpg(2),
            PersistAction::Done,
        ]
    );
    assert!(state.result().is_ok());
}

#[test]
fn a_failure_keeps_no_other_output_from_being_written() {
    let t = three_outputs();
    let playlist = vec![group(1, "a", &[("A", None)])];
    let mut state = PersistState::new();
    let mut step = |reply: PersistReply| persist_playlist(&playlist, &t, &mut state, reply);
    assert_eq!(step(PersistReply::Nothing), PersistAction::WriteM3u(0));
    assert_eq!(step(PersistReply::Failed(failure("m3u"))), PersistAction::WriteStrm(1));
    assert_eq!(step(PersistReply::Written), PersistAction::WriteEpg(1));
    assert_eq!(step(PersistReply::Failed(failure("epg"))), PersistAction::WriteXtream(2));
    assert_eq!(step(PersistReply::Written), PersistAction::WriteEpg(2));
    assert_eq!(step(PersistReply::Written), PersistAction::Done);
    assert_eq!(messages(&state.result().unwrap_err()), vec!["m3u", "epg"]);
}

#[test]
fn an_empty_playlist_has_no_guide() {
    let t = three_outputs();
    let mut state = PersistState::new();
    let mut step = |reply: PersistReply| persist_playlist(&[], &t, &mut state, reply);
    assert_eq!(step(PersistReply::Nothing), PersistAction::WriteM3u(0));
    assert_eq!(step(PersistReply::Written), PersistAction::WriteStrm(1));
    assert_eq!(step(PersistReply::Written), PersistAction::WriteXtream(2));
    assert_eq!(step(PersistReply::Written), PersistAction::Done);
    assert!(state.result().is_ok());
}

#[test]
fn a_source_is_processed_step_by_step() {
    let source = ConfigSource {
        inputs: vec![
            input(1, true, InputType::M3u),
            input(2, false, InputType::M3u),
            input(3, true, InputType::Xtream),
        ],
        targets: vec![target(1, false), target(2, true), target(3, true)],
    };
    let user = nothing_asked_for();
    let mut run = SourceRun::new(&source, 0, &user);
    assert_eq!(run.action(), SourceAction::FetchM3u(0));
    run.playlist_fetched(vec![group(1, "a", &[("A", None), ("xB", None)])], vec![]);
    assert_eq!(run.action(), SourceAction::FetchGuide(0));
    run.guide_fetched(Some(TVGuide { file: "guide".to_string() }), vec![failure("guide")]);
    assert_eq!(run.action(), SourceAction::FetchXtream(2));
    run.playlist_fetched(vec![group(1, "b", &[("C", None)])], vec![failure("playlist")]);
    assert_eq!(run.action(), SourceAction::ProcessTarget(1));
    assert_eq!(run.playlists().len(), 2);
    assert!(run.playlists()[0].epg.is_some());
    assert!(run.playlists()[1].epg.is_none());
    let made = run.process_target(&vec![vec![], vec![]], vec![failure("series")]).unwrap();
    assert_eq!(shape(&made.playlist), vec![entry(1, "a", &["A"]), entry(1, "b", &["C"])]);
    assert_eq!(run.action(), SourceAction::WriteTarget(1));
    run.target_written(vec![failure("write")]);
    assert_eq!(run.action(), SourceAction::ProcessTarget(2));
    run.process_target(&vec![vec![], vec![]], vec![]).unwrap();
    assert_eq!(run.action(), SourceAction::WriteTarget(2));
    run.target_written(vec![]);
    assert_eq!(run.action(), SourceAction::Done);
    let (mut stats, errors) = run.finish();
    assert_eq!(messages(&errors), vec!["guide", "playlist", "series", "write"]);
    stats.sort_by_key(|s| s.name.clone());
    assert_eq!(stats.len(), 2);
    assert_eq!(stats[0].name, "http://1");
    assert_eq!(stats[0].raw_stats, size(1, 2));
    assert_eq!(stats[0].processed_stats, size(1, 1));
    assert_eq!(stats[0].error_count, 0);
    assert_eq!(stats[1].input_type, InputType::Xtream);
    assert_eq!(stats[1].error_count, 0);
}

#[test]
fn an_empty_input_is_reported_and_left_out() {
    let mut named = input(1, true, InputType::M3u);
    named.name = Some("first".to_string());
    let source = ConfigSource {
        inputs: vec![named, input(2, true, InputType::M3u)],
        targets: vec![target(1, true)],
    };
    let user = nothing_asked_for();
    let mut run = SourceRun::new(&source, 12, &user);
    run.playlist_fetched(vec![], vec![failure("download")]);
    assert_eq!(run.action(), SourceAction::FetchM3u(1));
    run.playlist_fetched(vec![], vec![]);
    run.guide_fetched(None, vec![]);
    assert_eq!(run.action(), SourceAction::Done);
    let (stats, errors) = run.finish();
    assert_eq!(stats.len(), 2);
    assert_eq!(
        messages(&errors),
        vec![
            "download",
            "source is empty first",
            "source is empty http://2",
            "Source at 12 input is empty",
        ]
    );
    assert_eq!(errors[0].kind, M3uFilterErrorKind::Info);
    assert_eq!(errors[1].kind, M3uFilterErrorKind::Notify);
    assert_eq!(errors[3].kind, M3uFilterErrorKind::Notify);
}

#[test]
fn a_source_without_inputs_is_done_at_once() {
    let source = ConfigSource {
        inputs: vec![input(1, false, InputType::M3u)],
        targets: vec![target(1, true)],
    };
    let user = nothing_asked_for();
    let run = SourceRun::new(&source, 0, &user);
    assert_eq!(run.action(), SourceAction::Done);
    let (stats, errors) = run.finish();
    assert!(stats.is_empty());
    assert_eq!(messages(&errors), vec!["Source at 0 input is empty"]);
}

#[test]
fn forced_inputs_are_fetched() {
    let source = ConfigSource {
        inputs: vec![input(1, false, InputType::M3u), input(2, false, InputType::Xtream)],
        targets: vec![target(1, false)],
    };
    let user = ProcessTargets { enabled: true, inputs: vec![2], targets: vec![1] };
    let mut run = SourceRun::new(&source, 0, &user);
    assert_eq!(run.action(), SourceAction::FetchXtream(1));
    run.playlist_fetched(vec![group(1, "a", &[("A", None)])], vec![failure("partial")]);
    assert_eq!(run.action(), SourceAction::ProcessTarget(0));
}

#[test]
fn inputs_of_the_same_id_share_their_statistics() {
    let source = ConfigSource {
        inputs: vec![input(1, true, InputType::M3u), input(1, true, InputType::M3u)],
        targets: vec![],
    };
    let user = nothing_asked_for();
    let mut run = SourceRun::new(&source, 0, &user);
    run.playlist_fetched(vec![group(1, "a", &[("A", None)])], vec![failure("1")]);
    run.playlist_fetched(vec![group(1, "a", &[("A", None), ("B", None)])], vec![failure("2")]);
    assert_eq!(run.action(), SourceAction::Done);
    let (stats, _) = run.finish();
    assert_eq!(stats.len(), 1);
    assert_eq!(stats[0].raw_stats, size(1, 2));
}

#[test]
fn a_target_without_groups_is_not_written() {
    let mut named = target(1, true);
    named.watch_re = Some(vec![pattern("")]);
    named.output = vec![TargetOutput { target: TargetType::M3u, filename: None }];
    let mut accepting = target(2, true);
    accepting.filter = Filter::FieldComparison(ItemField::Name, pattern("x"));
    let source = ConfigSource {
        inputs: vec![input(1, true, InputType::M3u)],
        targets: vec![named, accepting, target(3, true)],
    };
    let user = nothing_asked_for();
    let mut run = SourceRun::new(&source, 0, &user);
    run.playlist_fetched(vec![group(1, "a", &[("xA", None)])], vec![]);
    run.guide_fetched(Some(TVGuide { file: "guide".to_string() }), vec![]);
    assert_eq!(run.action(), SourceAction::ProcessTarget(0));
    let made = run.process_target(&vec![vec![]], vec![failure("series")]).unwrap();
    assert!(made.playlist.is_empty());
    assert!(made.guides.is_empty());
    assert!(matches!(made.watch, GroupWatch::Nothing));
    assert_eq!(run.action(), SourceAction::ProcessTarget(1));
    let made = run.process_target(&vec![vec![]], vec![]).unwrap();
    assert_eq!(shape(&made.playlist), vec![entry(1, "a", &["xA"])]);
    assert_eq!(run.action(), SourceAction::WriteTarget(1));
    run.target_written(vec![failure("write")]);
    assert_eq!(run.action(), SourceAction::ProcessTarget(2));
    assert!(run.process_target(&vec![vec![]], vec![]).unwrap().playlist.is_empty());
    assert_eq!(run.action(), SourceAction::Done);
    let (stats, errors) = run.finish();
    assert_eq!(messages(&errors), vec!["series", "write"]);
    assert_eq!(stats[0].raw_stats, size(1, 1));
    assert_eq!(stats[0].processed_stats, size(0, 0));
}

#[test]
fn a_group_without_channels_leaves_nothing_to_write() {
    let source = input(7, true, InputType::M3u);
    let mut playlists =
        vec![FetchedPlaylist { input: &source, playlist: vec![group(1, "News", &[])], epg: None }];
    let mut t = target(1, true);
    t.output = vec![TargetOutput { target: TargetType::M3u, filename: None }];
    let mut before = stats_of(7);
    before.raw_stats = size(1, 0);
    before.processed_stats = size(5, 9);
    let mut stats = HashMap::new();
    stats.insert(7u16, before);
    let made = process_playlist(&mut playlists, &t, &vec![vec![]], &mut stats).unwrap();
    assert!(made.playlist.is_empty());
    assert_eq!(shape(&playlists[0].playlist), vec![entry(1, "News", &[])]);
    assert_eq!(stats[&7].processed_stats, size(0, 0));
    assert_eq!(stats[&7].raw_stats, size(1, 0));
}
