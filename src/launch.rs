//! Which launch targets are allowed, and which system commands exist. The
//! launching itself is done by the host.
use vstd::prelude::*;
use crate::text::{chars_of, starts_with, str_eq, is_prefix};

verus! {

/// The scheme of `target` as `url::Url::parse` reads it, when it parses as
/// an absolute URL.
pub uninterp spec fn url_scheme(target: Seq<char>) -> Option<Seq<char>>;

/// Relies on `url::Url::parse` and `Url::scheme`: the lower-case scheme of
/// `target` when it parses as an absolute URL.
#[verifier::external_body]
fn parsed_url_scheme(target: &str) -> (r: Option<String>)
    ensures
        match r {
            Some(s) => url_scheme(target@) == Some(s@),
            None => url_scheme(target@) is None,
        },
{
    url::Url::parse(target).ok().map(|u| u.scheme().to_string())
}

/// `target` is a web address that may be opened: an HTTP or HTTPS URL.
pub open spec fn web_url_allowed(target: Seq<char>) -> bool {
    url_scheme(target) == Some("http"@) || url_scheme(target) == Some("https"@)
}

/// Whether `target` is an HTTP or HTTPS URL.
pub fn is_allowed_web_url(target: &str) -> (r: bool)
    ensures
        r == web_url_allowed(target@),
{
    match parsed_url_scheme(target) {
        Some(s) => str_eq(s.as_str(), "http") || str_eq(s.as_str(), "https"),
        None => false,
    }
}

/// The URI scheme of the macOS system settings panes.
pub open spec fn settings_scheme() -> Seq<char> {
    "x-apple.systempreferences:"@
}

/// An application target may be opened: it exists on disk, or, on macOS, it
/// is a system settings URI.
pub open spec fn app_target_allowed(target: Seq<char>, exists: bool, on_macos: bool) -> bool {
    (on_macos && is_prefix(settings_scheme(), target)) || exists
}

/// Whether application target `target` may be opened; `exists` tells
/// whether it names an existing path.
pub fn is_allowed_app_target(target: &str, exists: bool, on_macos: bool) -> (r: bool)
    ensures
        r == app_target_allowed(target@, exists, on_macos),
{
    if on_macos {
        let t = chars_of(target);
        let p = chars_of("x-apple.systempreferences:");
        if starts_with(&t, &p) {
            return true;
        }
    }
    exists
}

/// Why a launch was refused.
pub enum LaunchError {
    /// The category is none of `APP`, `FILE`, `WEB`.
    UnsupportedCategory(String),
    /// The target is not allowed for its category.
    Blocked { category: String, target: String },
}

impl LaunchError {
    /// The message shown for the error.
    pub fn message(&self) -> (r: String)
        ensures
            match self {
                LaunchError::UnsupportedCategory(c) => r@ == "Unsupported category: "@ + c@,
                LaunchError::Blocked { category, target } => r@ == "Blocked launch target for category "@
                    + category@ + ": "@ + target@,
            },
    {
        match self {
            LaunchError::UnsupportedCategory(c) => {
                let mut m = String::from_str("Unsupported category: ");
                m.append(c.as_str());
                m
            },
            LaunchError::Blocked { category, target } => {
                let mut m = String::from_str("Blocked launch target for category ");
                m.append(category.as_str());
                m.append(": ");
                m.append(target.as_str());
                m
            },
        }
    }
}

/// The launch of `target` in `category` is allowed.
pub open spec fn launch_allowed(target: Seq<char>, category: Seq<char>, exists: bool, on_macos: bool) -> bool {
    if category == "APP"@ {
        app_target_allowed(target, exists, on_macos)
    } else if category == "FILE"@ {
        exists
    } else {
        web_url_allowed(target)
    }
}

/// Decides whether `action_data` may be launched as `category`: `exists`
/// tells whether it names an existing path, `on_macos` whether the host
/// runs macOS.
pub fn check_launch_target(action_data: &str, category: &str, exists: bool, on_macos: bool) -> (r: Result<(), LaunchError>)
    ensures
        !(category@ == "APP"@ || category@ == "FILE"@ || category@ == "WEB"@) ==> (r matches Err(
            LaunchError::UnsupportedCategory(c),
        ) && c@ == category@),
        (category@ == "APP"@ || category@ == "FILE"@ || category@ == "WEB"@) ==> (
            launch_allowed(action_data@, category@, exists, on_macos) <==> r is Ok),
        r matches Err(LaunchError::Blocked { category: c, target: t }) ==> (c@ == category@ && t@
            == action_data@),
{
    let allowed = if str_eq(category, "APP") {
        is_allowed_app_target(action_data, exists, on_macos)
    } else if str_eq(category, "FILE") {
        exists
    } else if str_eq(category, "WEB") {
        is_allowed_web_url(action_data)
    } else {
        return Err(LaunchError::UnsupportedCategory(String::from_str(category)));
    };
    if !allowed {
        return Err(
            LaunchError::Blocked {
                category: String::from_str(category),
                target: String::from_str(action_data),
            },
        );
    }
    Ok(())
}

/// A system command the host can run.
#[derive(PartialEq, Eq, Structural, Clone, Copy, Debug)]
pub enum SystemCommand {
    Sleep,
    Lock,
    SpotifyPlay,
    SpotifyPause,
    SpotifyNext,
    SpotifyPrevious,
}

/// The system command named `name`.
pub open spec fn command_named(name: Seq<char>) -> Option<SystemCommand> {
    if name == "sleep"@ {
        Some(SystemCommand::Sleep)
    } else if name == "lock"@ {
        Some(SystemCommand::Lock)
    } else if name == "spotify_play"@ {
        Some(SystemCommand::SpotifyPlay)
    } else if name == "spotify_pause"@ {
        Some(SystemCommand::SpotifyPause)
    } else if name == "spotify_next"@ {
        Some(SystemCommand::SpotifyNext)
    } else if name == "spotify_prev"@ {
        Some(SystemCommand::SpotifyPrevious)
    } else {
        None
    }
}

/// The system command named `name`, if there is one.
pub fn parse_system_command(name: &str) -> (r: Option<SystemCommand>)
    ensures
        r == command_named(name@),
{
    if str_eq(name, "sleep") {
        Some(SystemCommand::Sleep)
    } else if str_eq(name, "lock") {
        Some(SystemCommand::Lock)
    } else if str_eq(name, "spotify_play") {
        Some(SystemCommand::SpotifyPlay)
    } else if str_eq(name, "spotify_pause") {
        Some(SystemCommand::SpotifyPause)
    } else if str_eq(name, "spotify_next") {
        Some(SystemCommand::SpotifyNext)
    } else if str_eq(name, "spotify_prev") {
        Some(SystemCommand::SpotifyPrevious)
    } else {
        None
    }
}

/// The Spotify verb of a media command.
pub open spec fn spotify_verb_of(c: SystemCommand) -> Option<Seq<char>> {
    match c {
        SystemCommand::SpotifyPlay => Some("play"@),
        SystemCommand::SpotifyPause => Some("pause"@),
        SystemCommand::SpotifyNext => Some("next track"@),
        SystemCommand::SpotifyPrevious => Some("previous track"@),
        _ => None,
    }
}

/// The verb that the Spotify application is told for a media command.
pub fn spotify_verb(c: SystemCommand) -> (r: Option<&'static str>)
    ensures
        match r {
            Some(v) => spotify_verb_of(c) == Some(v@),
            None => spotify_verb_of(c) is None,
        },
{
    match c {
        SystemCommand::SpotifyPlay => Some("play"),
        SystemCommand::SpotifyPause => Some("pause"),
        SystemCommand::SpotifyNext => Some("next track"),
        SystemCommand::SpotifyPrevious => Some("previous track"),
        _ => None,
    }
}

} // verus!
