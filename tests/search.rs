use spotlight_genie::commands::{
    append_matching_apps, calc_search_result, file_icon_for_ext, file_search_result,
    finish_results, get_system_commands, search, urlencoding, wants_app_refresh, SearchResult,
};
use spotlight_genie::file_index::FileMatch;
use spotlight_genie::indexer::AppEntry;
use fuzzy_matcher::skim::SkimMatcherV2;
use fuzzy_matcher::FuzzyMatcher;
use spotlight_genie::scoring::Matcher;

fn skim(choice: &str, pattern: &str) -> Option<i64> {
    SkimMatcherV2::default().fuzzy_match(choice, pattern)
}

fn app(name: &str, path: &str, icon: Option<&str>) -> AppEntry {
    AppEntry { name: name.to_string(), path: path.to_string(), icon: icon.map(|s| s.to_string()) }
}

fn result(id: &str, score: i64) -> SearchResult {
    SearchResult {
        id: id.to_string(),
        title: id.to_string(),
        subtitle: String::new(),
        category: "APP".to_string(),
        icon: String::new(),
        action_data: String::new(),
        score,
    }
}

#[test]
fn blank_query_finds_nothing() {
    let m = Matcher::new();
    let apps = vec![app("Safari", "/Applications/Safari.app", None)];
    assert!(search("", &m, &apps, None, Vec::new(), None).is_empty());
    assert!(search("   \t", &m, &apps, None, Vec::new(), None).is_empty());
}

#[test]
fn query_without_candidates_gives_only_the_web_fallback() {
    let m = Matcher::new();
    let r = search("zzqxj", &m, &[], None, Vec::new(), None);
    assert_eq!(r.len(), 1);
    assert_eq!(r[0].category, "WEB");
    assert_eq!(r[0].score, 10);
    assert_eq!(r[0].id, "web:search");
    assert_eq!(r[0].title, "Search web: zzqxj");
    assert_eq!(r[0].action_data, "https://www.google.com/search?q=zzqxj");
}

#[test]
fn lock_query_brings_up_lock_with_bonus() {
    let m = Matcher::new();
    let r = search("lock", &m, &[], None, Vec::new(), None);
    let lock = r.iter().find(|x| x.id == "sys:lock").expect("lock command");
    let base = skim("Lock Screen", "lock").expect("fuzzy match");
    assert_eq!(lock.score, base + 220);
    assert_eq!(lock.category, "SYS");
    assert_eq!(r[0].id, "sys:lock");
}

#[test]
fn unrelated_query_keeps_lock_hidden() {
    let m = Matcher::new();
    let r = search("banana", &m, &[], None, Vec::new(), None);
    assert!(r.iter().all(|x| x.id != "sys:lock" || x.score < 120));
}

#[test]
fn apps_calc_and_files_are_merged_and_sorted() {
    let m = Matcher::new();
    let apps = vec![
        app("Safari", "/Applications/Safari.app", Some("data:icon")),
        app("Notes", "/Applications/Notes.app", None),
    ];
    let files = vec![result("file:/tmp/safari.txt", 500)];
    let r = search("safari", &m, &apps, None, files, Some("1+1 = 2".to_string()));
    assert_eq!(r[0].id, "app:/Applications/Safari.app");
    assert_eq!(r[0].score, 10_000);
    assert_eq!(r[0].icon, "data:icon");
    assert_eq!(r[0].subtitle, "Application");
    assert_eq!(r[1].id, "calc:result");
    assert_eq!(r[1].score, 1000);
    assert_eq!(r[2].id, "file:/tmp/safari.txt");
    assert!(r.iter().all(|x| x.category != "WEB"));
    for w in r.windows(2) {
        assert!(w[0].score >= w[1].score);
    }
}

#[test]
fn refreshed_apps_are_used_only_when_nothing_matched() {
    let m = Matcher::new();
    let stale = vec![app("Notes", "/Applications/Notes.app", None)];
    let fresh = vec![app("Ghostty", "/Applications/Ghostty.app", None)];
    assert!(wants_app_refresh("ghostty", &m, &stale));
    assert!(!wants_app_refresh("gh", &m, &stale));
    assert!(!wants_app_refresh("notes", &m, &stale));
    let r = search("ghostty", &m, &stale, Some(&fresh), Vec::new(), None);
    assert_eq!(r[0].title, "Ghostty");
    assert_eq!(r[0].action_data, "/Applications/Ghostty.app");
    let r = search("notes", &m, &stale, Some(&fresh), Vec::new(), None);
    assert!(r.iter().all(|x| x.title != "Ghostty"));
}

#[test]
fn app_results_use_default_icon_when_none_known() {
    let m = Matcher::new();
    let mut out = Vec::new();
    append_matching_apps(&mut out, &[app("Notes", "/A/Notes.app", None)], &m, "notes");
    assert_eq!(out.len(), 1);
    assert_eq!(out[0].icon, "layout-grid");
    assert_eq!(out[0].id, "app:/A/Notes.app");
}

#[test]
fn fallback_joins_low_confidence_results() {
    let r = finish_results(vec![result("a", 40), result("b", 49)], "q");
    assert_eq!(r.len(), 3);
    assert_eq!(r[0].score, 49);
    assert_eq!(r[2].id, "web:search");
    let r = finish_results(vec![result("a", 50)], "q");
    assert_eq!(r.len(), 1);
}

#[test]
fn ranking_keeps_at_most_sixty_four() {
    let many: Vec<SearchResult> = (0..100).map(|i| result("x", 100 + i)).collect();
    let r = finish_results(many, "q");
    assert_eq!(r.len(), 64);
    assert_eq!(r[0].score, 199);
    assert_eq!(r[63].score, 136);
}

#[test]
fn url_escaping() {
    assert_eq!(urlencoding("a b&c"), "a+b%26c");
    assert_eq!(urlencoding("x-y_z.~"), "x-y_z.~");
    assert_eq!(urlencoding("\n"), "%0A");
    assert_eq!(urlencoding("€"), "%E2%82%AC");
    assert_eq!(urlencoding("café au lait"), "caf%C3%A9+au+lait");
    assert_eq!(urlencoding("a/b?c=d"), "a%2Fb%3Fc%3Dd");
}

#[test]
fn system_command_list() {
    let c = get_system_commands();
    let ids: Vec<&str> = c.iter().map(|x| x.id.as_str()).collect();
    assert_eq!(ids, vec!["sys:settings", "sys:sleep", "sys:lock"]);
    assert_eq!(c[2].title, "Lock Screen");
}

#[test]
fn calc_result_shape() {
    let r = calc_search_result("2+3*4 = 14");
    assert_eq!(r.id, "calc:result");
    assert_eq!(r.title, "2+3*4 = 14");
    assert_eq!(r.action_data, "2+3*4 = 14");
    assert_eq!(r.score, 1000);
    assert_eq!(r.category, "CALC");
}

#[test]
fn file_icons_by_extension() {
    assert_eq!(file_icon_for_ext("/x/photo.PNG", false), "image");
    assert_eq!(file_icon_for_ext("/x/main.rs", false), "file-code");
    assert_eq!(file_icon_for_ext("/x/data.sqlite", false), "database");
    assert_eq!(file_icon_for_ext("/x/Projects", true), "folder");
    assert_eq!(file_icon_for_ext("/x/readme", false), "file");
}

#[test]
fn file_results_rank_below_equal_apps() {
    let m = FileMatch {
        name: "notes.txt".to_string(),
        path: "/home/u/Documents/notes.txt".to_string(),
        parent: "Documents".to_string(),
        score: 120,
    };
    let r = file_search_result(&m, false);
    assert_eq!(r.id, "file:/home/u/Documents/notes.txt");
    assert_eq!(r.subtitle, "~/ Documents");
    assert_eq!(r.icon, "file-text");
    assert_eq!(r.category, "FILE");
    assert_eq!(r.score, 70);
}

#[test]
fn ghostty_is_discoverable_when_installed() {
    let m = Matcher::new();
    let apps = vec![
        app("Ghostty", "/Applications/Ghostty.app", None),
        app("Safari", "/Applications/Safari.app", None),
    ];
    let results = search("ghostty", &m, &apps, None, Vec::new(), None);
    assert!(results.iter().any(|item| {
        item.category == "APP"
            && item.title.eq_ignore_ascii_case("ghostty")
            && item.action_data.ends_with("Ghostty.app")
    }));
}
