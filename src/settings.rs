//! User settings as the search core reads them.
use vstd::prelude::*;
use crate::file_index::texts;

verus! {

/// The user's settings.
pub struct AppSettings {
    pub hotkey: String,
    pub max_results: usize,
    pub launch_at_login: bool,
    pub theme: String,
    pub show_recent_apps: bool,
    pub search_folders: Vec<String>,
}

/// The view of the settings.
pub struct SettingsView {
    pub hotkey: Seq<char>,
    pub max_results: usize,
    pub launch_at_login: bool,
    pub theme: Seq<char>,
    pub show_recent_apps: bool,
    pub search_folders: Seq<Seq<char>>,
}

impl View for AppSettings {
    type V = SettingsView;

    open spec fn view(&self) -> SettingsView {
        SettingsView {
            hotkey: self.hotkey@,
            max_results: self.max_results,
            launch_at_login: self.launch_at_login,
            theme: self.theme@,
            show_recent_apps: self.show_recent_apps,
            search_folders: texts(self.search_folders@),
        }
    }
}

/// What `Path::join` gives for `base` and `part`.
pub uninterp spec fn path_joined(base: Seq<char>, part: Seq<char>) -> Seq<char>;

/// Relies on `Path::join`: `part` appended to `base` as a path component.
#[verifier::external_body]
fn join_path(base: &str, part: &str) -> (r: String)
    ensures
        r@ == path_joined(base@, part@),
{
    std::path::Path::new(base).join(part).to_string_lossy().to_string()
}

/// The folders searched by default: Desktop, Documents and Downloads under
/// `home`.
pub open spec fn default_folders(home: Seq<char>) -> Seq<Seq<char>> {
    seq![
        path_joined(home, "Desktop"@),
        path_joined(home, "Documents"@),
        path_joined(home, "Downloads"@),
    ]
}

/// The default settings for a user whose home directory is `home`.
pub open spec fn default_settings_view(home: Seq<char>) -> SettingsView {
    SettingsView {
        hotkey: "CommandOrControl+Space"@,
        max_results: 8,
        launch_at_login: false,
        theme: "dark"@,
        show_recent_apps: true,
        search_folders: default_folders(home),
    }
}

/// The folders searched by default under `home`.
pub fn default_search_folders(home: &str) -> (r: Vec<String>)
    ensures
        texts(r@) == default_folders(home@),
{
    let mut r: Vec<String> = Vec::new();
    r.push(join_path(home, "Desktop"));
    r.push(join_path(home, "Documents"));
    r.push(join_path(home, "Downloads"));
    assert(texts(r@) =~= default_folders(home@));
    r
}

/// The default settings for a user whose home directory is `home`.
pub fn default_settings(home: &str) -> (r: AppSettings)
    ensures
        r@ == default_settings_view(home@),
{
    AppSettings {
        hotkey: String::from_str("CommandOrControl+Space"),
        max_results: 8,
        launch_at_login: false,
        theme: String::from_str("dark"),
        show_recent_apps: true,
        search_folders: default_search_folders(home),
    }
}

fn copy_strings(v: &Vec<String>) -> (r: Vec<String>)
    ensures
        texts(r@) == texts(v@),
{
    let mut r: Vec<String> = Vec::new();
    let mut i: usize = 0;
    while i < v.len()
        invariant
            i <= v.len(),
            texts(r@) == texts(v@).subrange(0, i as int),
        decreases v.len() - i,
    {
        let s = v[i].clone();
        let ghost before = r@;
        r.push(s);
        assert(texts(r@) =~= texts(before).push(s@));
        assert(texts(v@).subrange(0, i + 1) =~= texts(v@).subrange(0, i as int).push(v@[i as int]@));
        i += 1;
    }
    assert(texts(v@).subrange(0, v.len() as int) == texts(v@));
    r
}

/// A copy of `s`.
pub fn copy_settings(s: &AppSettings) -> (r: AppSettings)
    ensures
        r@ == s@,
{
    AppSettings {
        hotkey: s.hotkey.clone(),
        max_results: s.max_results,
        launch_at_login: s.launch_at_login,
        theme: s.theme.clone(),
        show_recent_apps: s.show_recent_apps,
        search_folders: copy_strings(&s.search_folders),
    }
}

/// The settings in effect: those stored, or the defaults for `home` when
/// none are.
pub fn get(stored: Option<&AppSettings>, home: &str) -> (r: AppSettings)
    ensures
        match stored {
            Some(s) => r@ == s@,
            None => r@ == default_settings_view(home@),
        },
{
    match stored {
        Some(s) => copy_settings(s),
        None => default_settings(home),
    }
}

} // verus!
