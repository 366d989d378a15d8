use playlist_processor::affix::apply_affixes;
use playlist_processor::config::{
    ConfigInput, ConfigRename, ConfigSort, ConfigSortChannel, ConfigSortGroup, ConfigTarget,
    InputAffix, InputType, ProcessingOrder, SortOrder,
};
use playlist_processor::filter::{filter_playlist, is_valid, Filter};
use playlist_processor::mapping::{
    can_map, map_channel, map_playlist, Mapper, MapperAttribute, Mapping,
};
use playlist_processor::pattern::Pattern;
use playlist_processor::pipe::{get_processing_pipe, run_pipe, ProcessingStage};
use playlist_processor::playlist::{
    FetchedPlaylist, ItemField, PlaylistGroup, PlaylistItem, PlaylistItemHeader, XtreamCluster,
};
use playlist_processor::regroup::{can_regroup, regroup};
use playlist_processor::rename::{exec_rename, rename_playlist};
use playlist_processor::sort::sort_playlist;

fn pattern(source: &str) -> Pattern {
    Pattern::new(source.to_string()).unwrap()
}

fn channel(name: &str, group: &str) -> PlaylistItem {
    PlaylistItem {
        header: PlaylistItemHeader {
            id: format!("id-{}", name),
            name: name.to_string(),
            title: format!("{} title", name),
            group: group.to_string(),
            logo: "".to_string(),
            url: format!("http://host/{}", name),
            epg_channel_id: None,
            xtream_cluster: XtreamCluster::Live,
        },
    }
}

fn group(id: u32, title: &str, names: &[&str]) -> PlaylistGroup {
    PlaylistGroup {
        id,
        title: title.to_string(),
        channels: names.iter().map(|name| channel(name, title)).collect(),
        xtream_cluster: XtreamCluster::Live,
    }
}

fn matches(field: ItemField, source: &str) -> Filter {
    Filter::FieldComparison(field, pattern(source))
}

fn target(filter: Filter) -> ConfigTarget {
    ConfigTarget {
        id: 1,
        enabled: true,
        name: "target".to_string(),
        filter,
        rename: None,
        mapping: None,
        sort: None,
        watch_re: None,
        processing_order: ProcessingOrder::Frm,
        options: None,
        output: vec![],
    }
}

fn any_target() -> ConfigTarget {
    target(matches(ItemField::Name, ""))
}

fn input(prefix: Option<(&str, &str)>, suffix: Option<(&str, &str)>) -> ConfigInput {
    let affix = |(field, value): (&str, &str)| InputAffix {
        field: field.to_string(),
        value: value.to_string(),
    };
    ConfigInput {
        id: 1,
        enabled: true,
        input_type: InputType::M3u,
        name: None,
        url: "http://host".to_string(),
        prefix: prefix.map(affix),
        suffix: suffix.map(affix),
    }
}

fn names(group: &PlaylistGroup) -> Vec<String> {
    group.channels.iter().map(|c| c.header.name.clone()).collect()
}

fn shape(playlist: &[PlaylistGroup]) -> Vec<(u32, String, Vec<String>)> {
    playlist.iter().map(|g| (g.id, g.title.clone(), names(g))).collect()
}

fn entry(id: u32, title: &str, names: &[&str]) -> (u32, String, Vec<String>) {
    (id, title.to_string(), names.iter().map(|n| n.to_string()).collect())
}

fn set_on(pattern_source: &str, field: &str, value: &str) -> Mapping {
    Mapping {
        mapper: vec![Mapper {
            filter: None,
            pattern: Some(matches(ItemField::Name, pattern_source)),
            attributes: vec![MapperAttribute {
                field: field.to_string(),
                value: value.to_string(),
            }],
        }],
    }
}

#[test]
fn filters_combine_conditions() {
    let c = channel("Sport 1", "Sports");
    let sport = || Box::new(matches(ItemField::Name, "^Sport"));
    let news = || Box::new(matches(ItemField::Group, "News"));
    assert!(is_valid(&c, &target(*sport())));
    assert!(!is_valid(&c, &target(*news())));
    assert!(!is_valid(&c, &target(Filter::Not(sport()))));
    assert!(!is_valid(&c, &target(Filter::And(sport(), news()))));
    assert!(is_valid(&c, &target(Filter::Or(news(), sport()))));
    assert!(is_valid(&c, &target(matches(ItemField::Title, "title$"))));
    assert!(is_valid(&c, &target(matches(ItemField::Url, "host/Sport 1"))));
}

#[test]
fn filtering_drops_channels_and_then_empty_groups() {
    let playlist = vec![
        group(3, "Sports", &["A", "B", "A2"]),
        group(4, "News", &["B"]),
        group(5, "Films", &[]),
        group(6, "Series", &["A3"]),
    ];
    let kept = filter_playlist(&playlist, &target(matches(ItemField::Name, "^A"))).unwrap();
    assert_eq!(shape(&kept), vec![entry(3, "Sports", &["A", "A2"]), entry(6, "Series", &["A3"])]);
}

#[test]
fn filtering_twice_is_filtering_once() {
    let playlist = vec![group(3, "Sports", &["A", "B"]), group(4, "News", &["B"])];
    let t = target(matches(ItemField::Name, "^A"));
    let once = filter_playlist(&playlist, &t).unwrap();
    let twice = filter_playlist(&once, &t).unwrap();
    assert_eq!(shape(&once), shape(&twice));
}

#[test]
fn renames_are_applied_in_order() {
    let renames = Some(vec![
        ConfigRename {
            field: ItemField::Name,
            re: pattern("HD"),
            new_name: "FHD".to_string(),
        },
        ConfigRename {
            field: ItemField::Name,
            re: pattern("(F)(HD)"),
            new_name: "$2-$1".to_string(),
        },
    ]);
    let mut c = channel("Das HD", "Sports");
    exec_rename(&mut c, &renames);
    assert_eq!(c.header.name, "Das HD-F");
    assert_eq!(c.header.title, "Das HD title");
    let mut untouched = channel("Das HD", "Sports");
    exec_rename(&mut untouched, &None);
    exec_rename(&mut untouched, &Some(vec![]));
    assert_eq!(untouched.header.name, "Das HD");
}

#[test]
fn a_group_rename_changes_the_title_and_the_channels() {
    let mut t = any_target();
    t.rename = Some(vec![ConfigRename {
        field: ItemField::Group,
        re: pattern("^DE: "),
        new_name: "".to_string(),
    }]);
    let renamed = rename_playlist(&[group(3, "DE: Sports", &["A"])], &t).unwrap();
    assert_eq!(renamed[0].title, "Sports");
    assert_eq!(renamed[0].id, 3);
    assert_eq!(renamed[0].channels[0].header.group, "Sports");
    assert_eq!(renamed[0].channels[0].header.name, "A");
}

#[test]
fn without_renames_there_is_no_renamed_playlist() {
    let mut t = any_target();
    assert!(rename_playlist(&[group(3, "Sports", &["A"])], &t).is_none());
    t.rename = Some(vec![]);
    assert!(rename_playlist(&[group(3, "Sports", &["A"])], &t).is_none());
}

#[test]
fn a_rule_sets_its_attributes_where_filter_and_pattern_match() {
    let rule = |filter: Option<Filter>| Mapping {
        mapper: vec![Mapper {
            filter,
            pattern: Some(matches(ItemField::Name, "^A")),
            attributes: vec![
                MapperAttribute { field: "name".to_string(), value: "First".to_string() },
                MapperAttribute { field: "epg_channel_id".to_string(), value: "a.de".to_string() },
                MapperAttribute { field: "no such field".to_string(), value: "x".to_string() },
            ],
        }],
    };
    let mapped = map_channel(channel("A", "Sports"), &rule(None));
    assert_eq!(mapped.header.name, "First");
    assert_eq!(mapped.header.epg_channel_id, Some("a.de".to_string()));
    let rejected =
        map_channel(channel("A", "Sports"), &rule(Some(matches(ItemField::Group, "News"))));
    assert_eq!(rejected.header.name, "A");
    assert_eq!(rejected.header.epg_channel_id, None);
    let unmatched = map_channel(channel("B", "Sports"), &rule(None));
    assert_eq!(unmatched.header.name, "B");
}

#[test]
fn a_later_rule_sees_what_an_earlier_one_set() {
    let mut mapping = set_on("^A$", "name", "B");
    mapping.mapper.extend(set_on("^B$", "name", "C").mapper);
    assert_eq!(map_channel(channel("A", "Sports"), &mapping).header.name, "C");
}

#[test]
fn a_pattern_is_evaluated_from_left_to_right_only_as_far_as_needed() {
    let rule = |pattern: Filter| Mapping {
        mapper: vec![Mapper {
            filter: None,
            pattern: Some(pattern),
            attributes: vec![MapperAttribute {
                field: "logo".to_string(),
                value: "set".to_string(),
            }],
        }],
    };
    let a = || Box::new(matches(ItemField::Name, "^A"));
    let b = || Box::new(matches(ItemField::Name, "^B"));
    let logo = |pattern: Filter| map_channel(channel("A", "Sports"), &rule(pattern)).header.logo;
    assert_eq!(logo(Filter::And(b(), a())), "");
    assert_eq!(logo(Filter::And(a(), b())), "set");
    assert_eq!(logo(Filter::Or(b(), a())), "set");
    assert_eq!(logo(Filter::Not(a())), "set");
    assert_eq!(logo(Filter::Not(b())), "");
}

#[test]
fn mapped_channels_move_to_the_groups_that_they_name() {
    let mut t = any_target();
    t.mapping = Some(vec![set_on("^B", "group", "News"), Mapping { mapper: vec![] }]);
    let playlist = vec![group(7, "Sports", &["A", "B", "A2"]), group(9, "Films", &["B2", "C"])];
    assert!(can_map(&playlist, &t));
    let mapped = map_playlist(&playlist, &t).unwrap();
    assert_eq!(
        shape(&mapped),
        vec![
            entry(7, "Sports", &["A", "A2"]),
            entry(10, "News", &["B", "B2"]),
            entry(9, "Films", &["C"]),
        ]
    );
}

#[test]
fn without_mappings_there_is_no_mapped_playlist() {
    assert!(map_playlist(&[group(7, "Sports", &["A"])], &any_target()).is_none());
}

#[test]
fn regrouping_numbers_new_groups_after_the_largest() {
    let mut first = group(0, "Sports", &["A"]);
    first.channels.push(channel("B", "News"));
    first.channels.push(channel("C", "Films"));
    let second = group(5, "Films", &["D"]);
    let result = regroup(&vec![first, second]);
    assert_eq!(
        shape(&result),
        vec![
            entry(1, "Sports", &["A"]),
            entry(2, "News", &["B"]),
            entry(3, "Films", &["C", "D"]),
        ]
    );
    assert_eq!(shape(&regroup(&result)), shape(&result));
}

#[test]
fn regrouping_takes_the_cluster_of_the_first_channel() {
    let mut playlist = vec![group(2, "Sports", &["A"])];
    playlist[0].channels[0].header.xtream_cluster = XtreamCluster::Series;
    assert_eq!(regroup(&playlist)[0].xtream_cluster, XtreamCluster::Series);
}

#[test]
fn the_largest_number_is_no_problem_while_no_group_is_new() {
    let mut playlist = vec![group(u32::MAX, "Sports", &["A", "B"])];
    assert!(can_regroup(&playlist));
    assert_eq!(shape(&regroup(&playlist)), shape(&playlist));
    playlist[0].channels[1].header.group = "News".to_string();
    assert!(!can_regroup(&playlist));
}

#[test]
fn mapping_that_runs_out_of_numbers_ends_the_pipe() {
    let mut t = any_target();
    t.mapping = Some(vec![set_on("^B", "group", "News")]);
    assert!(run_pipe(vec![group(u32::MAX, "Sports", &["A", "A2"])], &t).is_some());
    assert!(!can_map(&vec![group(u32::MAX, "Sports", &["A", "B"])], &t));
    assert!(run_pipe(vec![group(u32::MAX, "Sports", &["A", "B"])], &t).is_none());
}

#[test]
fn the_pipe_has_the_stages_in_the_configured_order() {
    let f = ProcessingStage::FilterPlaylist;
    let r = ProcessingStage::RenamePlaylist;
    let m = ProcessingStage::MapPlaylist;
    let pipe = |order: ProcessingOrder| {
        let mut t = any_target();
        t.processing_order = order;
        get_processing_pipe(&t)
    };
    assert_eq!(pipe(ProcessingOrder::Frm), vec![f, r, m]);
    assert_eq!(pipe(ProcessingOrder::Fmr), vec![f, m, r]);
    assert_eq!(pipe(ProcessingOrder::Rfm), vec![r, f, m]);
    assert_eq!(pipe(ProcessingOrder::Rmf), vec![r, m, f]);
    assert_eq!(pipe(ProcessingOrder::Mfr), vec![m, f, r]);
    assert_eq!(pipe(ProcessingOrder::Mrf), vec![m, r, f]);
}

#[test]
fn the_order_of_the_stages_matters() {
    let configured = |order: ProcessingOrder| {
        let mut t = target(matches(ItemField::Name, "^B"));
        t.rename = Some(vec![ConfigRename {
            field: ItemField::Name,
            re: pattern("^A"),
            new_name: "B".to_string(),
        }]);
        t.processing_order = order;
        t
    };
    let playlist = || vec![group(1, "Sports", &["A1", "B2"])];
    let filtered_first = run_pipe(playlist(), &configured(ProcessingOrder::Frm)).unwrap();
    assert_eq!(shape(&filtered_first), vec![entry(1, "Sports", &["B2"])]);
    let renamed_first = run_pipe(playlist(), &configured(ProcessingOrder::Rfm)).unwrap();
    assert_eq!(shape(&renamed_first), vec![entry(1, "Sports", &["B1", "B2"])]);
}

#[test]
fn affixes_go_before_and_after_the_field() {
    let source = input(Some(("name", "DE ")), Some(("name", " HD")));
    let mut playlists = vec![FetchedPlaylist {
        input: &source,
        playlist: vec![group(1, "Sports", &["A"])],
        epg: None,
    }];
    apply_affixes(&mut playlists);
    let header = &playlists[0].playlist[0].channels[0].header;
    assert_eq!(header.name, "DE A HD");
    assert_eq!(header.title, "A title");
    assert_eq!(playlists[0].playlist[0].title, "Sports");
}

#[test]
fn an_affix_needs_a_value_and_a_field_that_can_have_one() {
    for source in [
        input(None, None),
        input(Some(("url", "x")), None),
        input(Some(("name", "")), None),
        input(None, Some(("no such field", "x"))),
    ] {
        let mut playlists = vec![FetchedPlaylist {
            input: &source,
            playlist: vec![group(1, "Sports", &["A"])],
            epg: None,
        }];
        apply_affixes(&mut playlists);
        let header = &playlists[0].playlist[0].channels[0].header;
        assert_eq!(header.name, "A");
        assert_eq!(header.url, "http://host/A");
    }
    let source = input(Some(("url", "x")), Some(("group", "!")));
    let mut playlists = vec![FetchedPlaylist {
        input: &source,
        playlist: vec![group(1, "Sports", &["A"])],
        epg: None,
    }];
    apply_affixes(&mut playlists);
    assert_eq!(playlists[0].playlist[0].channels[0].header.group, "Sports!");
    assert_eq!(playlists[0].playlist[0].channels[0].header.url, "http://host/A");
}

fn sorting(match_as_ascii: bool, groups: Option<SortOrder>) -> ConfigSort {
    ConfigSort {
        match_as_ascii,
        groups: groups.map(|order| ConfigSortGroup { order }),
        channels: None,
    }
}

fn titles(playlist: &[PlaylistGroup]) -> Vec<String> {
    playlist.iter().map(|g| g.title.clone()).collect()
}

#[test]
fn groups_are_sorted_by_title() {
    let playlist = || {
        vec![
            group(1, "b", &[]),
            group(2, "\u{e4}", &[]),
            group(3, "a", &[]),
            group(4, "Z", &[]),
        ]
    };
    let mut t = any_target();
    t.sort = Some(sorting(false, Some(SortOrder::Asc)));
    let mut ascending = playlist();
    sort_playlist(&t, &mut ascending);
    assert_eq!(titles(&ascending), vec!["Z", "a", "b", "\u{e4}"]);
    t.sort = Some(sorting(false, Some(SortOrder::Desc)));
    let mut descending = playlist();
    sort_playlist(&t, &mut descending);
    assert_eq!(titles(&descending), vec!["\u{e4}", "b", "a", "Z"]);
    t.sort = Some(sorting(true, Some(SortOrder::Asc)));
    let mut as_ascii = playlist();
    sort_playlist(&t, &mut as_ascii);
    assert_eq!(titles(&as_ascii), vec!["Z", "\u{e4}", "a", "b"]);
    t.sort = None;
    let mut unsorted = playlist();
    sort_playlist(&t, &mut unsorted);
    assert_eq!(titles(&unsorted), vec!["b", "\u{e4}", "a", "Z"]);
}

#[test]
fn equal_titles_keep_their_order_in_both_directions() {
    for order in [SortOrder::Asc, SortOrder::Desc] {
        let mut t = any_target();
        t.sort = Some(sorting(false, Some(order)));
        let mut playlist = vec![group(1, "a", &[]), group(2, "b", &[]), group(3, "a", &[])];
        sort_playlist(&t, &mut playlist);
        let ids: Vec<u32> =
            playlist.iter().filter(|g| g.title == "a").map(|g| g.id).collect();
        assert_eq!(ids, vec![1, 3]);
    }
}

#[test]
fn channels_of_matching_groups_are_sorted_by_each_rule_in_turn() {
    let mut t = any_target();
    t.sort = Some(ConfigSort {
        match_as_ascii: false,
        groups: None,
        channels: Some(vec![
            ConfigSortChannel {
                field: ItemField::Name,
                re: pattern("^Sport"),
                order: SortOrder::Desc,
            },
            ConfigSortChannel {
                field: ItemField::Url,
                re: pattern("^Sport"),
                order: SortOrder::Asc,
            },
        ]),
    });
    let mut playlist =
        vec![group(1, "Sports", &["b", "c", "a"]), group(2, "News", &["b", "c", "a"])];
    playlist[0].channels[0].header.url = "1".to_string();
    playlist[0].channels[1].header.url = "1".to_string();
    playlist[0].channels[2].header.url = "0".to_string();
    sort_playlist(&t, &mut playlist);
    assert_eq!(names(&playlist[0]), vec!["a", "c", "b"]);
    assert_eq!(names(&playlist[1]), vec!["b", "c", "a"]);
}

#[test]
fn group_titles_are_matched_in_ascii_where_asked_for() {
    let mut t = any_target();
    t.sort = Some(ConfigSort {
        match_as_ascii: true,
        groups: None,
        channels: Some(vec![ConfigSortChannel {
            field: ItemField::Name,
            re: pattern("^Fuss"),
            order: SortOrder::Asc,
        }]),
    });
    let mut playlist = vec![group(1, "Fu\u{df}ball", &["b", "\u{e1}", "a"])];
    sort_playlist(&t, &mut playlist);
    assert_eq!(names(&playlist[0]), vec!["\u{e1}", "a", "b"]);
}
