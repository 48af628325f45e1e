use spotlight_genie::contacts::parse_contacts_output;
use spotlight_genie::icons::{
    data_uri_from_base64, get_app_icon, parse_plist_icon_name, png_data_uri, IconCache, IconStep,
};
use spotlight_genie::launch::{
    check_launch_target, is_allowed_app_target, is_allowed_web_url, parse_system_command,
    spotify_verb, LaunchError, SystemCommand,
};
use spotlight_genie::settings::{default_settings, get};
use spotlight_genie::text::{lines, trim};

#[test]
fn contacts_are_read_line_by_line() {
    let raw = "Ann Lee\tann@example.com\t+1 555\n\tnobody@example.com\nBob\t\t 555-0100 \r\nCy\n";
    let c = parse_contacts_output(raw);
    assert_eq!(c.len(), 3);
    assert_eq!(c[0].name, "Ann Lee");
    assert_eq!(c[0].email.as_deref(), Some("ann@example.com"));
    assert_eq!(c[0].phone.as_deref(), Some("+1 555"));
    assert_eq!(c[1].name, "Bob");
    assert_eq!(c[1].email, None);
    assert_eq!(c[1].phone.as_deref(), Some("555-0100"));
    assert_eq!(c[2].name, "Cy");
    assert_eq!(c[2].email, None);
    assert_eq!(c[2].phone, None);
}

#[test]
fn phone_keeps_later_tabs() {
    let c = parse_contacts_output("Dee\td@x\t1\t2");
    assert_eq!(c[0].phone.as_deref(), Some("1\t2"));
}

#[test]
fn lines_follow_str_lines() {
    let text = "a\r\nb\n\nc";
    let got: Vec<String> = lines(text).iter().map(|l| l.iter().collect()).collect();
    let want: Vec<String> = text.lines().map(|l| l.to_string()).collect();
    assert_eq!(got, want);
    assert_eq!(lines("x\n").len(), 1);
    assert!(lines("").is_empty());
    assert_eq!(trim("  a b \n"), "a b");
}

#[test]
fn plist_icon_name_prefers_icon_file() {
    let plist = "<dict><key>CFBundleIconName</key><string>Named</string>\
                 <key>CFBundleIconFile</key>\n  <string> AppIcon.icns </string></dict>";
    assert_eq!(parse_plist_icon_name(plist), Some("AppIcon.icns".to_string()));
    let only_name = "<key>CFBundleIconName</key><string>Named</string>";
    assert_eq!(parse_plist_icon_name(only_name), Some("Named".to_string()));
    assert_eq!(parse_plist_icon_name("<key>CFBundleIconFile</key><string>  </string>"), None);
    assert_eq!(parse_plist_icon_name("<dict></dict>"), None);
}

#[test]
fn data_uris() {
    assert_eq!(png_data_uri(&[]), None);
    assert_eq!(png_data_uri(b"hi"), Some("data:image/png;base64,aGk=".to_string()));
    assert_eq!(data_uri_from_base64(" \n"), None);
    assert_eq!(data_uri_from_base64(" QUJD\n"), Some("data:image/png;base64,QUJD".to_string()));
}

#[test]
fn icon_requests_go_through_the_cache() {
    let mut cache = IconCache::new();
    assert!(matches!(get_app_icon(&mut cache, "/A/X.app", true), IconStep::Extract));
    cache.remember_icon("/A/X.app", Some("data:x".to_string()));
    match get_app_icon(&mut cache, "/A/X.app", true) {
        IconStep::Done(icon) => assert_eq!(icon.as_deref(), Some("data:x")),
        IconStep::Extract => panic!("expected a cached icon"),
    }
    assert!(matches!(get_app_icon(&mut cache, "/A/Gone.app", false), IconStep::Done(None)));
    assert_eq!(cache.lookup("/A/Gone.app"), Some(None));
    assert_eq!(cache.lookup("/A/Other.app"), None);
}

#[test]
fn launch_targets_are_checked() {
    assert!(is_allowed_web_url("https://example.com/a"));
    assert!(is_allowed_web_url("HTTP://example.com"));
    assert!(!is_allowed_web_url("ftp://example.com"));
    assert!(!is_allowed_web_url("not a url"));
    assert!(is_allowed_app_target("x-apple.systempreferences:com.apple.Sound", false, true));
    assert!(!is_allowed_app_target("x-apple.systempreferences:com.apple.Sound", false, false));
    assert!(check_launch_target("https://x.org", "WEB", false, false).is_ok());
    assert!(check_launch_target("/tmp/a.txt", "FILE", true, false).is_ok());
    match check_launch_target("ftp://x", "WEB", false, false) {
        Err(e) => assert_eq!(e.message(), "Blocked launch target for category WEB: ftp://x"),
        Ok(()) => panic!("ftp must be blocked"),
    }
    match check_launch_target("x", "MUSIC", true, false) {
        Err(LaunchError::UnsupportedCategory(c)) => assert_eq!(c, "MUSIC"),
        _ => panic!("category must be refused"),
    }
}

#[test]
fn system_commands_by_name() {
    assert_eq!(parse_system_command("lock"), Some(SystemCommand::Lock));
    assert_eq!(parse_system_command("spotify_prev"), Some(SystemCommand::SpotifyPrevious));
    assert_eq!(parse_system_command("reboot"), None);
    assert_eq!(spotify_verb(SystemCommand::SpotifyNext), Some("next track"));
    assert_eq!(spotify_verb(SystemCommand::Sleep), None);
}

#[test]
fn settings_defaults_and_stored_values() {
    let d = default_settings("/home/u");
    assert_eq!(d.hotkey, "CommandOrControl+Space");
    assert_eq!(d.max_results, 8);
    assert_eq!(d.theme, "dark");
    assert!(d.show_recent_apps && !d.launch_at_login);
    assert_eq!(
        d.search_folders,
        vec!["/home/u/Desktop".to_string(), "/home/u/Documents".to_string(), "/home/u/Downloads".to_string()]
    );
    let mut stored = default_settings("/h");
    stored.theme = "light".to_string();
    assert_eq!(get(Some(&stored), "/home/u").theme, "light");
    assert_eq!(get(None, "/home/u").theme, "dark");
}
