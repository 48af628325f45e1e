use fuzzy_matcher::skim::SkimMatcherV2;
use fuzzy_matcher::FuzzyMatcher;
use spotlight_genie::commands::SearchResult;
use spotlight_genie::scoring::{
    adjusted_system_score, app_acronym, normalize_for_match, query_is_for_system_command,
    score_app_match, subsequence_coverage, Matcher,
};

#[test]
fn exact_match_beats_unrelated_apps() {
    let matcher = Matcher::new();
    let query = "spotify";
    let spotify = score_app_match(&matcher, "Spotify", query).unwrap_or_default();
    let siri = score_app_match(&matcher, "Siri", query).unwrap_or_default();
    assert!(
        spotify > siri,
        "expected Spotify ({spotify}) > Siri ({siri})"
    );
}

#[test]
fn acronym_matching_is_supported() {
    let matcher = Matcher::new();
    let query = "vsc";
    let score = score_app_match(&matcher, "Visual Studio Code", query);
    assert!(score.is_some(), "expected acronym query to resolve");
}

#[test]
fn multi_char_query_still_matches() {
    let matcher = Matcher::new();
    for q in ["s", "sa", "saf", "safar", "safari"] {
        assert!(
            score_app_match(&matcher, "Safari", q).is_some(),
            "'{}' should match Safari",
            q
        );
    }
}

#[test]
fn substring_match_works() {
    let matcher = Matcher::new();
    assert!(score_app_match(&matcher, "System Preferences", "pref").is_some());
}

#[test]
fn exact_match_scores_ten_thousand() {
    let matcher = Matcher::new();
    assert_eq!(score_app_match(&matcher, "Spotify", "spotify"), Some(10_000));
    assert_eq!(score_app_match(&matcher, "Google Chrome", "google-chrome"), Some(10_000));
}

#[test]
fn prefix_score_drops_with_byte_length() {
    let matcher = Matcher::new();
    assert_eq!(score_app_match(&matcher, "Safari", "saf"), Some(8_400 - 6));
    assert_eq!(score_app_match(&matcher, "Safari Preview", "saf"), Some(8_400 - 14));
}

#[test]
fn word_start_acronym_and_substring_tiers() {
    let matcher = Matcher::new();
    assert_eq!(score_app_match(&matcher, "System Preferences", "pref"), Some(7_900));
    assert_eq!(score_app_match(&matcher, "Visual Studio Code", "vsc"), Some(7_700));
    assert_eq!(score_app_match(&matcher, "Photoshop", "shop"), Some(7_400 - 5 * 25));
}

#[test]
fn prefix_outranks_substring() {
    let matcher = Matcher::new();
    let prefix = score_app_match(&matcher, "Notes", "note").unwrap();
    let inner = score_app_match(&matcher, "Keynote", "note").unwrap();
    assert!(prefix > inner);
}

#[test]
fn fuzzy_tier_stays_in_its_band() {
    let matcher = Matcher::new();
    let s = score_app_match(&matcher, "Visual Studio Code", "vscode").unwrap();
    assert!((1_200..=4_000).contains(&s), "fuzzy score {s}");
}

#[test]
fn fuzzy_tier_formula() {
    let raw = SkimMatcherV2::default()
        .fuzzy_match("visualstudiocode", "vscode")
        .unwrap();
    let matcher = Matcher::new();
    assert_eq!(
        score_app_match(&matcher, "Visual Studio Code", "vscode"),
        Some(1_200 + raw.clamp(0, 2_800))
    );
}

#[test]
fn unrelated_or_blank_queries_do_not_match() {
    let matcher = Matcher::new();
    assert_eq!(score_app_match(&matcher, "Siri", "spotify"), None);
    assert_eq!(score_app_match(&matcher, "Safari", "  --  "), None);
}

#[test]
fn normalization_keeps_lowercased_alphanumerics() {
    assert_eq!(normalize_for_match("Wi-Fi Settings 2"), "wifisettings2");
    assert_eq!(app_acronym("visual studio-code"), "vsc");
    assert_eq!(app_acronym(""), "");
}

#[test]
fn coverage_counts_in_order() {
    let t: Vec<char> = "safari".chars().collect();
    let q: Vec<char> = "sfx".chars().collect();
    assert_eq!(subsequence_coverage(&t, &q), 2);
}

fn command(id: &str) -> SearchResult {
    SearchResult {
        id: id.to_string(),
        title: String::new(),
        subtitle: String::new(),
        category: "SYS".to_string(),
        icon: String::new(),
        action_data: String::new(),
        score: 0,
    }
}

#[test]
fn intent_adds_bonus_and_lack_of_it_penalizes() {
    assert!(query_is_for_system_command("lock", "sys:lock"));
    assert!(query_is_for_system_command("change theme", "sys:settings"));
    assert!(query_is_for_system_command("suspend now", "sys:sleep"));
    assert!(!query_is_for_system_command("banana", "sys:lock"));
    assert_eq!(adjusted_system_score(40, &command("sys:lock"), "lock"), Some(260));
    assert_eq!(adjusted_system_score(40, &command("sys:lock"), "banana"), None);
    assert_eq!(adjusted_system_score(600, &command("sys:lock"), "banana"), Some(220));
    assert_eq!(adjusted_system_score(499, &command("sys:sleep"), "x"), None);
    assert_eq!(adjusted_system_score(500, &command("sys:sleep"), "x"), Some(120));
}

#[test]
fn long_prefix_match_stays_above_word_start() {
    let matcher = Matcher::new();
    let long_name = "a".repeat(1500);
    assert_eq!(score_app_match(&matcher, &long_name, "a"), Some(7_901));
    let near = "a".repeat(499);
    assert_eq!(score_app_match(&matcher, &near, "a"), Some(7_901));
    let shorter = "a".repeat(498);
    assert_eq!(score_app_match(&matcher, &shorter, "a"), Some(7_902));
}

#[test]
fn late_substring_match_stays_above_fuzzy() {
    let matcher = Matcher::new();
    let name = format!("{}xyz", "b".repeat(200));
    assert_eq!(score_app_match(&matcher, &name, "xyz"), Some(4_001));
    let prefixed = format!("xyz{}", "b".repeat(2000));
    let inner = format!("b{}xyz", "b".repeat(1999));
    assert!(
        score_app_match(&matcher, &prefixed, "xyz").unwrap()
            > score_app_match(&matcher, &inner, "xyz").unwrap()
    );
}

#[test]
fn same_arguments_score_the_same_on_one_matcher() {
    let matcher = Matcher::new();
    let first = score_app_match(&matcher, "Visual Studio Code", "vscode");
    let _ = score_app_match(&matcher, "aaaaaaaaaaaaaaaaaaaaaaaaaaaaaaaaaaaaaaaac", "aac");
    let _ = score_app_match(&matcher, "Visual Studio Code Insiders Edition", "vsce");
    assert_eq!(score_app_match(&matcher, "Visual Studio Code", "vscode"), first);
}
