use spotlight_genie::indexer::{
    desktop_entry_name, get_apps, init, install_apps, refresh_apps_with_cooldown,
    scan_macos_prefpanes, sort_and_merge_apps, AppDirectory, AppEntry,
};

fn app(name: &str, path: &str, icon: Option<&str>) -> AppEntry {
    AppEntry { name: name.to_string(), path: path.to_string(), icon: icon.map(|s| s.to_string()) }
}

#[test]
fn directory_is_empty_until_initialized_and_init_runs_once() {
    let mut dir = AppDirectory::new();
    assert!(get_apps(&dir).is_empty());
    init(&mut dir, vec![app("Safari", "/A/Safari.app", None)], 1_000);
    assert_eq!(get_apps(&dir).len(), 1);
    init(&mut dir, vec![], 2_000);
    assert_eq!(get_apps(&dir)[0].name, "Safari");
}

#[test]
fn refresh_waits_for_the_cooldown() {
    let mut dir = AppDirectory::new();
    init(&mut dir, vec![app("Safari", "/A/Safari.app", None)], 1_000);
    assert!(!refresh_apps_with_cooldown(&mut dir, 20_999, 20_000));
    assert!(refresh_apps_with_cooldown(&mut dir, 21_000, 20_000));
    assert!(!refresh_apps_with_cooldown(&mut dir, 21_500, 20_000));
    let fresh = install_apps(&mut dir, vec![app("Ghostty", "/A/Ghostty.app", None)]);
    assert_eq!(fresh[0].name, "Ghostty");
    assert_eq!(get_apps(&dir)[0].name, "Ghostty");
    assert!(!refresh_apps_with_cooldown(&mut dir, 500, 20_000));
    assert!(refresh_apps_with_cooldown(&mut dir, 500, 0));
}

#[test]
fn scanned_apps_are_sorted_and_duplicates_merged() {
    let merged = sort_and_merge_apps(vec![
        app("safari", "/A/safari.app", None),
        app("Notes", "/A/Notes.app", None),
        app("Safari", "/B/Safari.app", Some("data:icon")),
        app("Calendar", "/A/Calendar.app", None),
    ]);
    let names: Vec<&str> = merged.iter().map(|a| a.name.as_str()).collect();
    assert_eq!(names.len(), 3);
    assert_eq!(names[0], "Calendar");
    assert_eq!(names[1], "Notes");
    assert!(names[2].eq_ignore_ascii_case("safari"));
    assert_eq!(merged[2].icon.as_deref(), Some("data:icon"));
}

#[test]
fn first_of_equal_names_stays_when_it_has_an_icon() {
    let merged = sort_and_merge_apps(vec![
        app("Mail", "/A/Mail.app", Some("one")),
        app("MAIL", "/B/Mail.app", Some("two")),
    ]);
    assert_eq!(merged.len(), 1);
    assert!(merged[0].icon.is_some());
}

#[test]
fn settings_panes_are_listed() {
    let mut entries = vec![app("Safari", "/A/Safari.app", None)];
    scan_macos_prefpanes(&mut entries);
    assert_eq!(entries.len(), 18);
    assert_eq!(entries[1].name, "Wi-Fi Settings");
    assert_eq!(entries[1].path, "x-apple.systempreferences:com.apple.wifi-settings-extension");
    assert_eq!(entries[17].name, "Passwords Settings");
    assert!(entries[17].icon.is_none());
}

#[test]
fn desktop_entry_name_is_the_first_name_line() {
    let content = "[Desktop Entry]\nType=Application\nName=Firefox\nName=Other\n";
    assert_eq!(desktop_entry_name(content), Some("Firefox".to_string()));
    assert_eq!(desktop_entry_name("Name=Name=Odd\r\n"), Some("Odd".to_string()));
    assert_eq!(desktop_entry_name("[Desktop Entry]\nExec=x"), None);
}

#[test]
fn duplicates_merge_wherever_they_stand() {
    let merged = sort_and_merge_apps(vec![
        app("Zed", "/A/Zed.app", None),
        app("Alpha", "/A/Alpha.app", None),
        app("zed", "/B/zed.app", Some("icon-b")),
        app("ZED", "/C/ZED.app", Some("icon-c")),
    ]);
    assert_eq!(merged.len(), 2);
    assert_eq!(merged[0].name, "Alpha");
    assert_eq!(merged[1].path, "/B/zed.app");
    assert_eq!(merged[1].icon.as_deref(), Some("icon-b"));
}
