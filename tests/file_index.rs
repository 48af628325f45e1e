use spotlight_genie::file_index::{
    display_parent, is_hidden, scan_budget_exhausted, search, FileEntry, FileIndex,
};
use fuzzy_matcher::skim::SkimMatcherV2;
use fuzzy_matcher::FuzzyMatcher;
use spotlight_genie::scoring::Matcher;

fn skim(choice: &str, pattern: &str) -> Option<i64> {
    SkimMatcherV2::default().fuzzy_match(choice, pattern)
}

fn entry(name: &str, parent: &str) -> FileEntry {
    FileEntry {
        name: name.to_string(),
        path: format!("{parent}/{name}"),
        parent: parent.to_string(),
    }
}

#[test]
fn short_queries_find_no_files() {
    let m = Matcher::new();
    let entries = vec![entry("ab", "/home/u"), entry("abc", "/home/u")];
    assert!(search("ab", &m, &entries, "/home/u").is_empty());
    assert!(search("", &m, &entries, "/home/u").is_empty());
}

#[test]
fn file_search_keeps_best_three_above_threshold() {
    let m = Matcher::new();
    let entries = vec![
        entry("report.pdf", "/home/u/Documents"),
        entry("report-final.pdf", "/home/u/Documents"),
        entry("old_report.doc", "/home/u/Desktop"),
        entry("my report notes.txt", "/home/u/Desktop"),
        entry("zebra.png", "/home/u/Pictures"),
    ];
    let r = search("report", &m, &entries, "/home/u");
    assert!(!r.is_empty() && r.len() <= 3);
    for w in r.windows(2) {
        assert!(w[0].score >= w[1].score);
    }
    for x in &r {
        assert!(x.score >= 30);
        assert!(x.name != "zebra.png");
        assert_eq!(x.score, skim(&x.name, "report").unwrap());
    }
    let mut expected: Vec<i64> = entries
        .iter()
        .filter_map(|e| skim(&e.name, "report"))
        .filter(|s| *s >= 30)
        .collect();
    expected.sort_by(|a, b| b.cmp(a));
    expected.truncate(3);
    let got: Vec<i64> = r.iter().map(|x| x.score).collect();
    assert_eq!(got, expected);
    for x in &r {
        assert!(!x.parent.starts_with("/home/u"));
    }
}

#[test]
fn parents_are_shown_relative_to_home() {
    assert_eq!(display_parent("/home/u/Documents/work", "/home/u"), "Documents/work");
    assert_eq!(display_parent("/srv/data", "/home/u"), "/srv/data");
    assert_eq!(display_parent("/home/user2", "/home/u"), "/home/user2");
}

#[test]
fn dot_files_are_hidden() {
    assert!(is_hidden("/home/u/.git"));
    assert!(!is_hidden("/home/u/notes.txt"));
    assert!(is_hidden("/"));
}

#[test]
fn scan_budget() {
    assert!(scan_budget_exhausted(12_000, 0));
    assert!(scan_budget_exhausted(0, 121));
    assert!(!scan_budget_exhausted(11_999, 120));
}

#[test]
fn refresh_is_single_flight_and_replaces_the_whole_snapshot() {
    let folders = vec!["/home/u/Desktop".to_string()];
    let mut index = FileIndex::new();
    assert!(index.needs_refresh(&folders, 1_000));
    assert!(index.begin_refresh(&folders, 1_000));
    assert!(!index.begin_refresh(&folders, 1_001));
    index.complete_refresh(folders.clone(), vec![entry("a.txt", "/home/u/Desktop")], 2_000);
    assert_eq!(index.snapshot_entries().len(), 1);
    assert!(!index.needs_refresh(&folders, 2_000 + 300_000));
    assert!(index.needs_refresh(&folders, 2_000 + 300_001));
    assert!(index.needs_refresh(&folders, 1_999));
    let other = vec!["/home/u/Documents".to_string()];
    assert!(index.needs_refresh(&other, 2_001));
    assert!(index.begin_refresh(&other, 2_001));
    assert_eq!(index.snapshot_entries()[0].name, "a.txt");
    index.complete_refresh(other.clone(), Vec::new(), 3_000);
    assert!(index.snapshot_entries().is_empty());
    assert!(index.needs_refresh(&other, 3_001));
}
