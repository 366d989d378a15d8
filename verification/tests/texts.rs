use playlist_processor::pattern::Pattern;
use playlist_processor::report::{errors_message, stats_message};
use playlist_processor::schedule::{schedule_sources, Schedule};
use playlist_processor::text::{comes_before, decimal_text, join, same_ignoring_case, same_text};
use playlist_processor::transliterate::comparable_text;

fn pattern(source: &str) -> Pattern {
    Pattern::new(source.to_string()).unwrap()
}

#[test]
fn texts_are_ordered_by_their_bytes() {
    assert!(comes_before("", "a"));
    assert!(comes_before("a", "ab"));
    assert!(comes_before("Z", "a"));
    assert!(comes_before("z", "\u{e9}"));
    assert!(!comes_before("b", "a"));
    assert!(!comes_before("a", "a"));
}

#[test]
fn same_text_compares_every_character() {
    assert!(same_text("", ""));
    assert!(same_text("group", "group"));
    assert!(!same_text("group", "Group"));
    assert!(!same_text("group", "groups"));
}

#[test]
fn case_is_ignored_for_ascii_letters_only() {
    assert!(same_ignoring_case("default", "DeFauLT"));
    assert!(!same_ignoring_case("default", "defaults"));
    assert!(!same_ignoring_case("\u{e4}", "\u{c4}"));
    assert!(!same_ignoring_case("@", "`"));
}

#[test]
fn numbers_are_written_in_decimal() {
    assert_eq!(decimal_text(0), "0");
    assert_eq!(decimal_text(10), "10");
    assert_eq!(decimal_text(907), "907");
    assert_eq!(decimal_text(usize::MAX), format!("{}", usize::MAX));
}

#[test]
fn texts_are_joined_with_a_separator_between_them() {
    assert_eq!(join(&vec![], ", "), "");
    assert_eq!(join(&vec!["a".to_string()], ", "), "a");
    let texts = vec!["a".to_string(), "".to_string(), "c".to_string()];
    assert_eq!(join(&texts, ", "), "a, , c");
}

#[test]
fn a_pattern_that_is_no_regular_expression_is_refused() {
    assert!(Pattern::new("(".to_string()).is_none());
    assert!(Pattern::new("a|b".to_string()).is_some());
}

#[test]
fn a_pattern_matches_anywhere_in_a_text() {
    assert!(pattern("port").is_match("Sports"));
    assert!(!pattern("^port").is_match("Sports"));
    assert!(pattern("(?i)SPORT").is_match("Sports"));
}

#[test]
fn every_match_is_replaced() {
    assert_eq!(pattern("a(.)").replace_all("ab-ac", "<$1>"), "<b>-<c>");
    assert_eq!(pattern("x").replace_all("ab-ac", "y"), "ab-ac");
}

#[test]
fn names_are_written_in_ascii_where_asked_for() {
    let name = "\u{c4}rger".to_string();
    assert_eq!(comparable_text(&name, true), "Arger");
    assert_eq!(comparable_text(&name, false), name);
    assert_eq!(comparable_text(&"BBC 1".to_string(), true), "BBC 1");
}

#[test]
fn the_stats_message_holds_one_line_per_input() {
    let stats = vec!["{a}".to_string(), "{b}".to_string()];
    assert_eq!(stats_message(&stats), "{\"stats\": {a}\n{b}}");
    assert_eq!(stats_message(&vec![]), "{\"stats\": }");
}

#[test]
fn the_errors_message_holds_the_text() {
    assert_eq!(errors_message("source is empty x"), "{\"errors\": \"source is empty x\"}");
}

fn batches_of(schedule: Schedule) -> Option<Vec<Vec<usize>>> {
    match schedule {
        Schedule::Sequential => None,
        Schedule::Batches(batches) => Some(batches),
    }
}

#[test]
fn one_thread_or_one_source_is_sequential() {
    assert_eq!(batches_of(schedule_sources(5, 0)), None);
    assert_eq!(batches_of(schedule_sources(5, 1)), None);
    assert_eq!(batches_of(schedule_sources(1, 4)), None);
    assert_eq!(batches_of(schedule_sources(0, 4)), None);
}

#[test]
fn sources_are_spread_over_the_threads() {
    assert_eq!(
        batches_of(schedule_sources(5, 2)),
        Some(vec![vec![0, 1], vec![2, 3], vec![4]])
    );
    assert_eq!(batches_of(schedule_sources(4, 2)), Some(vec![vec![0, 1], vec![2, 3]]));
    assert_eq!(batches_of(schedule_sources(2, 255)), Some(vec![vec![0, 1]]));
}
