//! Search results and the merging of every source into one ranked list.
use vstd::prelude::*;
use vstd::multiset::Multiset;
use vstd::utf8::encode_utf8;
use crate::text::{lower_of, string_of, to_lowercase, trim, trimmed, str_eq};
use crate::scoring::{
    Matcher, match_score, skim_score, adjusted_score, score_app_match, adjusted_system_score,
    fit_i64,
};
use crate::indexer::{AppEntry, AppView, app_views};
use crate::file_index::{FileMatch, FileMatchView};

verus! {

broadcast use vstd::seq_lib::group_to_multiset_ensures;

/// One entry of a ranked result list.
///
/// `id` is prefixed by its source (`app:`, `file:`, `calc:`, `sys:`, `web:`),
/// `category` is one of `APP`, `FILE`, `CALC`, `SYS`, `WEB`, and a higher
/// `score` ranks earlier.
pub struct SearchResult {
    pub id: String,
    pub title: String,
    pub subtitle: String,
    pub category: String,
    pub icon: String,
    pub action_data: String,
    pub score: i64,
}

/// The view of a search result.
pub struct ResultView {
    pub id: Seq<char>,
    pub title: Seq<char>,
    pub subtitle: Seq<char>,
    pub category: Seq<char>,
    pub icon: Seq<char>,
    pub action_data: Seq<char>,
    pub score: int,
}

impl View for SearchResult {
    type V = ResultView;

    open spec fn view(&self) -> ResultView {
        ResultView {
            id: self.id@,
            title: self.title@,
            subtitle: self.subtitle@,
            category: self.category@,
            icon: self.icon@,
            action_data: self.action_data@,
            score: self.score as int,
        }
    }
}

/// The views of a sequence of results.
pub open spec fn views(v: Seq<SearchResult>) -> Seq<ResultView> {
    v.map_values(|r: SearchResult| r@)
}

/// Score of the calculator's result.
pub const CALC_SCORE: i64 = 1000;
/// Score of the web-search fallback.
pub const WEB_SCORE: i64 = 10;
/// Below this score every result counts as low confidence.
pub const CONFIDENT_SCORE: i64 = 50;
/// Most results returned by one search.
pub const MAX_RESULTS: usize = 64;
/// Taken from a file's match score so files rank below equal apps.
pub const FILE_PENALTY: i64 = 50;

/// The result for an application that scored `score`.
pub open spec fn app_result(a: AppView, score: int) -> ResultView {
    ResultView {
        id: "app:"@ + a.path,
        title: a.name,
        subtitle: "Application"@,
        category: "APP"@,
        icon: match a.icon {
            Some(i) => i,
            None => "layout-grid"@,
        },
        action_data: a.path,
        score,
    }
}

/// The results for the applications of `apps` that match `query`, in order.
pub open spec fn app_hits(apps: Seq<AppView>, query: Seq<char>) -> Seq<ResultView>
    decreases apps.len(),
{
    if apps.len() == 0 {
        Seq::empty()
    } else {
        let rest = app_hits(apps.drop_last(), query);
        match match_score(apps.last().name, query) {
            Some(s) => rest.push(app_result(apps.last(), s)),
            None => rest,
        }
    }
}

fn copy_string(s: &String) -> (r: String)
    ensures
        r@ == s@,
{
    s.clone()
}

fn concat(a: &str, b: &str) -> (r: String)
    ensures
        r@ == a@ + b@,
{
    let mut r = String::from_str(a);
    r.append(b);
    r
}

/// Appends a result for each application of `apps` that matches `query`.
pub fn append_matching_apps(
    results: &mut Vec<SearchResult>,
    apps: &[AppEntry],
    matcher: &Matcher,
    query: &str,
)
    ensures
        views(final(results)@) == views(old(results)@) + app_hits(app_views(apps@), query@),
{
    let ghost base = views(results@);
    let mut i: usize = 0;
    while i < apps.len()
        invariant
            i <= apps.len(),
            views(results@) == base + app_hits(app_views(apps@).subrange(0, i as int), query@),
        decreases apps.len() - i,
    {
        let ghost pre = app_views(apps@).subrange(0, i as int);
        let ghost next = app_views(apps@).subrange(0, i + 1);
        assert(next.drop_last() == pre);
        let app = &apps[i];
        match score_app_match(matcher, app.name.as_str(), query) {
            Some(score) => {
                let icon = match &app.icon {
                    Some(ic) => copy_string(ic),
                    None => String::from_str("layout-grid"),
                };
                let r = SearchResult {
                    id: concat("app:", app.path.as_str()),
                    title: copy_string(&app.name),
                    subtitle: String::from_str("Application"),
                    category: String::from_str("APP"),
                    icon,
                    action_data: copy_string(&app.path),
                    score,
                };
                assert(r@ == app_result(app@, score as int));
                let ghost before = results@;
                results.push(r);
                assert(views(results@) =~= views(before).push(r@));
            },
            None => {},
        }
        i += 1;
    }
    assert(app_views(apps@).subrange(0, apps.len() as int) == app_views(apps@));
}

} // verus!

verus! {

/// A fixed system command, with score 0 before scoring.
pub open spec fn system_command(id: Seq<char>, title: Seq<char>, subtitle: Seq<char>, icon: Seq<char>, action: Seq<char>) -> ResultView {
    ResultView {
        id,
        title,
        subtitle,
        category: "SYS"@,
        icon,
        action_data: action,
        score: 0,
    }
}

/// The fixed system commands: settings, sleep and lock.
pub open spec fn system_commands() -> Seq<ResultView> {
    seq![
        system_command("sys:settings"@, "Genie Settings"@, "Configure hotkey, theme, and more"@, "settings"@, "settings"@),
        system_command("sys:sleep"@, "Sleep Device"@, "System command"@, "moon"@, "sleep"@),
        system_command("sys:lock"@, "Lock Screen"@, "System command"@, "lock"@, "lock"@),
    ]
}

fn make_system_command(id: &str, title: &str, subtitle: &str, icon: &str, action: &str) -> (r: SearchResult)
    ensures
        r@ == system_command(id@, title@, subtitle@, icon@, action@),
{
    SearchResult {
        id: String::from_str(id),
        title: String::from_str(title),
        subtitle: String::from_str(subtitle),
        category: String::from_str("SYS"),
        icon: String::from_str(icon),
        action_data: String::from_str(action),
        score: 0,
    }
}

/// The fixed system commands, unscored.
pub fn get_system_commands() -> (r: Vec<SearchResult>)
    ensures
        views(r@) == system_commands(),
{
    let mut r: Vec<SearchResult> = Vec::new();
    r.push(make_system_command("sys:settings", "Genie Settings", "Configure hotkey, theme, and more", "settings", "settings"));
    r.push(make_system_command("sys:sleep", "Sleep Device", "System command", "moon", "sleep"));
    r.push(make_system_command("sys:lock", "Lock Screen", "System command", "lock", "lock"));
    assert(views(r@) =~= system_commands());
    r
}

/// `cmd` as a result for `query` (normalised: `nq`), or `None`: the fuzzy
/// score of its title, else of its subtitle, after the intent adjustment.
pub open spec fn system_hit(cmd: ResultView, query: Seq<char>, nq: Seq<char>) -> Option<ResultView> {
    let base = match skim_score(cmd.title, query) {
        Some(s) => Some(s),
        None => skim_score(cmd.subtitle, query),
    };
    match base {
        Some(b) => match adjusted_score(b as int, nq, cmd.id) {
            Some(s) => Some(ResultView { score: s, ..cmd }),
            None => None,
        },
        None => None,
    }
}

/// The results among `cmds` for `query`, in order.
pub open spec fn system_hits(cmds: Seq<ResultView>, query: Seq<char>, nq: Seq<char>) -> Seq<ResultView>
    decreases cmds.len(),
{
    if cmds.len() == 0 {
        Seq::empty()
    } else {
        let rest = system_hits(cmds.drop_last(), query, nq);
        match system_hit(cmds.last(), query, nq) {
            Some(h) => rest.push(h),
            None => rest,
        }
    }
}

/// Appends the system commands that `query` brings up, each with its
/// adjusted score; `normalized_query` is the trimmed, lowercased query.
pub fn append_system_commands(
    results: &mut Vec<SearchResult>,
    matcher: &Matcher,
    query: &str,
    normalized_query: &str,
)
    ensures
        views(final(results)@) == views(old(results)@) + system_hits(system_commands(), query@, normalized_query@),
{
    let cmds = get_system_commands();
    let ghost base = views(results@);
    let mut i: usize = 0;
    while i < cmds.len()
        invariant
            i <= cmds.len(),
            views(cmds@) == system_commands(),
            views(results@) == base + system_hits(system_commands().subrange(0, i as int), query@, normalized_query@),
        decreases cmds.len() - i,
    {
        let ghost pre = system_commands().subrange(0, i as int);
        let ghost next = system_commands().subrange(0, i + 1);
        assert(next.drop_last() == pre);
        let cmd = &cmds[i];
        assert(next.last() == cmd@);
        let title_score = matcher.fuzzy_match(cmd.title.as_str(), query);
        let base_score = match title_score {
            Some(s) => Some(s),
            None => matcher.fuzzy_match(cmd.subtitle.as_str(), query),
        };
        match base_score {
            Some(b) => match adjusted_system_score(b, cmd, normalized_query) {
                Some(adjusted) => {
                    let r = SearchResult {
                        id: copy_string(&cmd.id),
                        title: copy_string(&cmd.title),
                        subtitle: copy_string(&cmd.subtitle),
                        category: copy_string(&cmd.category),
                        icon: copy_string(&cmd.icon),
                        action_data: copy_string(&cmd.action_data),
                        score: adjusted,
                    };
                    let ghost before = results@;
                    results.push(r);
                    assert(views(results@) =~= views(before).push(r@));
                },
                None => {},
            },
            None => {},
        }
        i += 1;
    }
    assert(system_commands().subrange(0, 3) == system_commands());
}

/// The hexadecimal digits, upper case.
pub open spec fn hex_digits() -> Seq<char> {
    seq!['0', '1', '2', '3', '4', '5', '6', '7', '8', '9', 'A', 'B', 'C', 'D', 'E', 'F']
}

/// The escaped form of one byte of a query string: a space becomes `+`,
/// ASCII letters, digits and `- . _ ~` stay, any other byte becomes `%`
/// and two upper-case hexadecimal digits.
pub open spec fn url_byte(b: u8) -> Seq<char> {
    if b == 0x20 {
        seq!['+']
    } else if (0x30 <= b <= 0x39) || (0x41 <= b <= 0x5a) || (0x61 <= b <= 0x7a) || b == 0x2d
        || b == 0x2e || b == 0x5f || b == 0x7e {
        seq![b as char]
    } else {
        seq!['%', hex_digits()[(b / 16) as int], hex_digits()[(b % 16) as int]]
    }
}

/// `bytes` escaped for a query string, byte by byte.
pub open spec fn url_escaped_bytes(bytes: Seq<u8>) -> Seq<char>
    decreases bytes.len(),
{
    if bytes.len() == 0 {
        Seq::empty()
    } else {
        url_escaped_bytes(bytes.drop_last()) + url_byte(bytes.last())
    }
}

/// `s` escaped for a query string: its UTF-8 bytes, each escaped.
pub open spec fn url_escaped(s: Seq<char>) -> Seq<char> {
    url_escaped_bytes(encode_utf8(s))
}

fn hex_digit(d: u8) -> (r: char)
    requires
        d < 16,
    ensures
        r == hex_digits()[d as int],
{
    match d {
        0 => '0',
        1 => '1',
        2 => '2',
        3 => '3',
        4 => '4',
        5 => '5',
        6 => '6',
        7 => '7',
        8 => '8',
        9 => '9',
        10 => 'A',
        11 => 'B',
        12 => 'C',
        13 => 'D',
        14 => 'E',
        _ => 'F',
    }
}

/// Escapes `s` for use in a query string, percent-encoding its UTF-8 bytes.
pub fn urlencoding(s: &str) -> (r: String)
    ensures
        r@ == url_escaped(s@),
{
    let bytes = s.as_bytes();
    let mut out: Vec<char> = Vec::new();
    let mut i: usize = 0;
    while i < bytes.len()
        invariant
            i <= bytes.len(),
            bytes@ == encode_utf8(s@),
            out@ == url_escaped_bytes(bytes@.subrange(0, i as int)),
        decreases bytes.len() - i,
    {
        assert(bytes@.subrange(0, i + 1).drop_last() == bytes@.subrange(0, i as int));
        let b = bytes[i];
        let ghost before = out@;
        if b == 0x20 {
            out.push('+');
        } else if (0x30 <= b && b <= 0x39) || (0x41 <= b && b <= 0x5a) || (0x61 <= b && b <= 0x7a)
            || b == 0x2d || b == 0x2e || b == 0x5f || b == 0x7e {
            out.push(b as char);
        } else {
            out.push('%');
            out.push(hex_digit(b / 16));
            out.push(hex_digit(b % 16));
        }
        assert(out@ =~= before + url_byte(b));
        i += 1;
    }
    assert(bytes@.subrange(0, bytes.len() as int) == bytes@);
    string_of(&out)
}

} // verus!

verus! {

/// Scores never fall out of order: each result scores at least as much as
/// every one after it.
pub open spec fn sorted_desc(s: Seq<ResultView>) -> bool {
    forall|i: int, j: int| 0 <= i < j < s.len() ==> s[i].score >= s[j].score
}

/// Every result scores below the confidence threshold (so does no result).
pub open spec fn low_confidence(s: Seq<ResultView>) -> bool {
    forall|i: int| 0 <= i < s.len() ==> s[i].score < CONFIDENT_SCORE
}

/// The web-search fallback for `query`.
pub open spec fn web_result(query: Seq<char>) -> ResultView {
    ResultView {
        id: "web:search"@,
        title: "Search web: "@ + query,
        subtitle: "Web fallback"@,
        category: "WEB"@,
        icon: "globe"@,
        action_data: "https://www.google.com/search?q="@ + url_escaped(query),
        score: WEB_SCORE as int,
    }
}

/// `s`, with the web-search fallback added when nothing in it is confident.
pub open spec fn with_fallback(s: Seq<ResultView>, query: Seq<char>) -> Seq<ResultView> {
    if low_confidence(s) {
        s.push(web_result(query))
    } else {
        s
    }
}

/// `r` is the top of `s`: the first `MAX_RESULTS` entries of some ordering of
/// `s` by descending score.
pub open spec fn ranked(r: Seq<ResultView>, s: Seq<ResultView>) -> bool {
    exists|p: Seq<ResultView>|
        #![trigger p.to_multiset()]
        p.to_multiset() == s.to_multiset() && sorted_desc(p) && r == p.subrange(
            0,
            if p.len() <= MAX_RESULTS {
                p.len() as int
            } else {
                MAX_RESULTS as int
            },
        )
}

fn web_search_result(query: &str) -> (r: SearchResult)
    ensures
        r@ == web_result(query@),
{
    let escaped = urlencoding(query);
    SearchResult {
        id: String::from_str("web:search"),
        title: concat("Search web: ", query),
        subtitle: String::from_str("Web fallback"),
        category: String::from_str("WEB"),
        icon: String::from_str("globe"),
        action_data: concat("https://www.google.com/search?q=", escaped.as_str()),
        score: WEB_SCORE,
    }
}

/// Orders `v` by descending score.
fn sort_by_score(v: Vec<SearchResult>) -> (r: Vec<SearchResult>)
    ensures
        views(r@).to_multiset() == views(v@).to_multiset(),
        sorted_desc(views(r@)),
{
    let mut rest = v;
    let mut sorted: Vec<SearchResult> = Vec::new();
    assert(views(sorted@) =~= Seq::<ResultView>::empty());
    while rest.len() > 0
        invariant
            views(sorted@).to_multiset().add(views(rest@).to_multiset()) == views(v@).to_multiset(),
            sorted_desc(views(sorted@)),
        decreases rest.len(),
    {
        let ghost rest0 = rest@;
        let item = match rest.pop() {
            Some(x) => x,
            None => {
                return sorted;
            },
        };
        assert(views(rest0) =~= views(rest@).push(item@));
        let mut j: usize = 0;
        while j < sorted.len() && sorted[j].score >= item.score
            invariant
                j <= sorted.len(),
                forall|k: int| 0 <= k < j ==> sorted@[k].score >= item.score,
            decreases sorted.len() - j,
        {
            j += 1;
        }
        let ghost s0 = views(sorted@);
        sorted.insert(j, item);
        assert(views(sorted@) =~= s0.insert(j as int, item@));
        assert(sorted_desc(views(sorted@))) by {
            assert forall|a: int, b: int| 0 <= a < b < views(sorted@).len() implies views(
                sorted@,
            )[a].score >= views(sorted@)[b].score by {
                if j < s0.len() {
                    assert(s0[j as int].score < item.score);
                }
                if a < j && b > j {
                    assert(s0[a].score >= item.score);
                    if j < s0.len() {
                        assert(s0[b - 1].score <= s0[j as int].score);
                    }
                } else if a == j && b > j {
                    assert(s0[b - 1].score <= s0[j as int].score);
                }
            }
        }
        assert(views(sorted@).to_multiset() == s0.to_multiset().insert(item@));
        assert(views(rest0).to_multiset() == views(rest@).to_multiset().insert(item@));
        assert(views(sorted@).to_multiset().add(views(rest@).to_multiset()) =~= s0.to_multiset().add(
            views(rest0).to_multiset(),
        ));
    }
    assert(views(rest@).to_multiset() =~= Multiset::<ResultView>::empty());
    assert(views(sorted@).to_multiset() =~= views(sorted@).to_multiset().add(
        views(rest@).to_multiset(),
    ));
    sorted
}

/// Adds the web-search fallback when nothing in `results` is confident,
/// orders by descending score and keeps the first `MAX_RESULTS`.
pub fn finish_results(results: Vec<SearchResult>, query: &str) -> (r: Vec<SearchResult>)
    ensures
        ranked(views(r@), with_fallback(views(results@), query@)),
{
    let mut all = results;
    let mut low = true;
    let mut i: usize = 0;
    while i < all.len()
        invariant
            i <= all.len(),
            all@ == results@,
            low == low_confidence(views(all@).subrange(0, i as int)),
        decreases all.len() - i,
    {
        if all[i].score >= CONFIDENT_SCORE {
            assert(views(all@).subrange(0, i + 1)[i as int].score >= CONFIDENT_SCORE);
            low = false;
        } else {
            if low {
                assert(low_confidence(views(all@).subrange(0, i + 1)));
            }
        }
        i += 1;
    }
    assert(views(all@).subrange(0, all.len() as int) == views(all@));
    if low {
        let ghost before = all@;
        all.push(web_search_result(query));
        assert(views(all@) =~= views(before).push(web_result(query@)));
    }
    let mut sorted = sort_by_score(all);
    let ghost p = views(sorted@);
    sorted.truncate(MAX_RESULTS);
    assert(views(sorted@) =~= p.subrange(
        0,
        if p.len() <= MAX_RESULTS {
            p.len() as int
        } else {
            MAX_RESULTS as int
        },
    ));
    sorted
}

/// The calculator's result for the evaluated expression `text`.
pub open spec fn calc_result(text: Seq<char>) -> ResultView {
    ResultView {
        id: "calc:result"@,
        title: text,
        subtitle: "Inline Calculator"@,
        category: "CALC"@,
        icon: "calculator"@,
        action_data: text,
        score: CALC_SCORE as int,
    }
}

/// The result that shows an evaluated expression.
pub fn calc_search_result(text: &str) -> (r: SearchResult)
    ensures
        r@ == calc_result(text@),
{
    SearchResult {
        id: String::from_str("calc:result"),
        title: String::from_str(text),
        subtitle: String::from_str("Inline Calculator"),
        category: String::from_str("CALC"),
        icon: String::from_str("calculator"),
        action_data: String::from_str(text),
        score: CALC_SCORE,
    }
}

/// The query as the application sources see it: trimmed and lowercased.
pub open spec fn normalized_query(query: Seq<char>) -> Seq<char> {
    lower_of(trimmed(query))
}

/// Every candidate of a search before ranking: application matches (with
/// the refreshed list when the first found none and the query has at least
/// three characters), file results, the calculator's result, and the system
/// commands the query brings up.
pub open spec fn candidates(
    query: Seq<char>,
    apps: Seq<AppView>,
    refreshed: Option<Seq<AppView>>,
    files: Seq<ResultView>,
    calc: Option<Seq<char>>,
) -> Seq<ResultView> {
    let nq = normalized_query(query);
    let first = app_hits(apps, nq);
    let found = if first.len() == 0 && nq.len() >= 3 {
        match refreshed {
            Some(r) => first + app_hits(r, nq),
            None => first,
        }
    } else {
        first
    };
    let c = match calc {
        Some(t) => seq![calc_result(t)],
        None => Seq::empty(),
    };
    found + files + c + system_hits(system_commands(), query, nq)
}

/// Whether `search` would use a refreshed application list: none of `apps`
/// matches `query` and its normalised form has at least three characters.
pub fn wants_app_refresh(query: &str, matcher: &Matcher, apps: &[AppEntry]) -> (r: bool)
    ensures
        r == (trimmed(query@).len() > 0 && app_hits(app_views(apps@), normalized_query(query@)).len() == 0
            && normalized_query(query@).len() >= 3),
{
    let t = trim(query);
    if t.as_str().unicode_len() == 0 {
        return false;
    }
    let nq = to_lowercase(t.as_str());
    let mut found: Vec<SearchResult> = Vec::new();
    append_matching_apps(&mut found, apps, matcher, nq.as_str());
    assert(views(found@) =~= app_hits(app_views(apps@), nq@));
    found.len() == 0 && nq.as_str().unicode_len() >= 3
}

} // verus!

verus! {

/// The optional list of application views.
pub open spec fn opt_app_views(r: Option<&[AppEntry]>) -> Option<Seq<AppView>> {
    match r {
        Some(a) => Some(app_views(a@)),
        None => None,
    }
}

/// The optional text of a string.
pub open spec fn opt_text(t: Option<String>) -> Option<Seq<char>> {
    match t {
        Some(s) => Some(s@),
        None => None,
    }
}

/// Ranks every source's candidates for `query`.
///
/// `apps` is the current application list and `refreshed_apps` a rescanned
/// one, used only when `apps` has no match and the normalised query has at
/// least three characters. `file_results` are the file matches already turned
/// into results, and `calc` the calculator's text for the query, if it is an
/// expression. A blank query finds nothing.
pub fn search(
    query: &str,
    matcher: &Matcher,
    apps: &[AppEntry],
    refreshed_apps: Option<&[AppEntry]>,
    file_results: Vec<SearchResult>,
    calc: Option<String>,
) -> (r: Vec<SearchResult>)
    ensures
        trimmed(query@).len() == 0 ==> r@.len() == 0,
        trimmed(query@).len() > 0 ==> ranked(
            views(r@),
            with_fallback(
                candidates(
                    query@,
                    app_views(apps@),
                    opt_app_views(refreshed_apps),
                    views(file_results@),
                    opt_text(calc),
                ),
                query@,
            ),
        ),
{
    let t = trim(query);
    if t.as_str().unicode_len() == 0 {
        return Vec::new();
    }
    let nq = to_lowercase(t.as_str());
    let mut results: Vec<SearchResult> = Vec::new();
    assert(views(results@) =~= Seq::<ResultView>::empty());
    append_matching_apps(&mut results, apps, matcher, nq.as_str());
    if results.len() == 0 && nq.as_str().unicode_len() >= 3 {
        match refreshed_apps {
            Some(r) => append_matching_apps(&mut results, r, matcher, nq.as_str()),
            None => {},
        }
    }
    let ghost found = views(results@);
    let mut files = file_results;
    results.append(&mut files);
    assert(views(results@) =~= found + views(file_results@));
    let ghost with_files = views(results@);
    match calc {
        Some(text) => {
            results.push(calc_search_result(text.as_str()));
            assert(views(results@) =~= with_files + seq![calc_result(text@)]);
        },
        None => {
            assert(views(results@) =~= with_files + Seq::<ResultView>::empty());
        },
    }
    append_system_commands(&mut results, matcher, query, nq.as_str());
    finish_results(results, query)
}

/// When no source has a candidate for a query, the ranking holds exactly one
/// result: the web-search fallback, in category `WEB` with score 10.
pub proof fn lemma_nothing_found_gives_fallback(r: Seq<ResultView>, query: Seq<char>)
    requires
        ranked(r, with_fallback(Seq::empty(), query)),
    ensures
        r == seq![web_result(query)],
        r[0].category == "WEB"@,
        r[0].score == WEB_SCORE,
{
    let w = web_result(query);
    let s = with_fallback(Seq::<ResultView>::empty(), query);
    assert(s =~= seq![w]);
    let p = choose|p: Seq<ResultView>|
        #![trigger p.to_multiset()]
        p.to_multiset() == s.to_multiset() && sorted_desc(p) && r == p.subrange(
            0,
            if p.len() <= MAX_RESULTS {
                p.len() as int
            } else {
                MAX_RESULTS as int
            },
        );
    assert(p.len() == s.len()) by {
        vstd::seq_lib::to_multiset_len(p);
        vstd::seq_lib::to_multiset_len(s);
    }
    assert(s.contains(w)) by {
        assert(s[0] == w);
    }
    assert(s.to_multiset().count(w) > 0);
    assert(p.contains(w));
    assert(p =~= seq![w]);
    assert(r =~= seq![w]);
}

} // verus!

verus! {

/// What `Path::extension` gives for `path`, when it is valid text.
pub uninterp spec fn extension_of(path: Seq<char>) -> Option<Seq<char>>;

/// Relies on `Path::extension` and `OsStr::to_str`: the extension of the
/// last component of `path`, if it has one.
#[verifier::external_body]
fn path_extension(path: &str) -> (r: Option<String>)
    ensures
        match r {
            Some(e) => extension_of(path@) == Some(e@),
            None => extension_of(path@) is None,
        },
{
    std::path::Path::new(path).extension().and_then(|e| e.to_str()).map(|e| e.to_string())
}

/// `e` is one of `names`.
pub open spec fn listed(e: Seq<char>, names: Seq<&str>) -> bool {
    exists|i: int| 0 <= i < names.len() && (#[trigger] names[i])@ == e
}

fn one_of(e: &str, names: &[&str]) -> (r: bool)
    ensures
        r == listed(e@, names@),
{
    let mut i: usize = 0;
    while i < names.len()
        invariant
            i <= names.len(),
            forall|k: int| 0 <= k < i ==> (#[trigger] names@[k])@ != e@,
        decreases names.len() - i,
    {
        if str_eq(names[i], e) {
            return true;
        }
        i += 1;
    }
    false
}

/// Extensions shown with the image icon.
pub open spec fn image_exts() -> Seq<&'static str> {
    seq!["png", "jpg", "jpeg", "gif", "bmp", "svg", "webp", "ico", "tiff"]
}

/// Extensions shown with the video icon.
pub open spec fn video_exts() -> Seq<&'static str> {
    seq!["mp4", "mov", "avi", "mkv", "wmv", "flv", "webm"]
}

/// Extensions shown with the music icon.
pub open spec fn music_exts() -> Seq<&'static str> {
    seq!["mp3", "wav", "flac", "aac", "ogg", "m4a", "wma"]
}

/// Extensions shown with the text-document icon.
pub open spec fn text_exts() -> Seq<&'static str> {
    seq!["pdf", "doc", "docx", "rtf", "odt", "pages", "txt", "md", "log"]
}

/// Extensions shown with the spreadsheet icon.
pub open spec fn sheet_exts() -> Seq<&'static str> {
    seq!["xls", "xlsx", "csv", "numbers"]
}

/// Extensions shown with the presentation icon.
pub open spec fn slide_exts() -> Seq<&'static str> {
    seq!["ppt", "pptx", "key", "keynote"]
}

/// Extensions shown with the archive icon.
pub open spec fn archive_exts() -> Seq<&'static str> {
    seq!["zip", "tar", "gz", "rar", "7z", "dmg"]
}

/// Extensions shown with the source-code icon.
pub open spec fn code_exts() -> Seq<&'static str> {
    seq![
        "rs", "js", "ts", "py", "rb", "go", "c", "cpp", "h", "java", "swift", "kt", "vue", "jsx",
        "tsx", "sh", "css", "scss", "html",
    ]
}

/// Extensions shown with the structured-data icon.
pub open spec fn data_exts() -> Seq<&'static str> {
    seq!["json", "yaml", "yml", "toml", "xml", "ini", "env"]
}

/// Extensions shown with the font icon.
pub open spec fn font_exts() -> Seq<&'static str> {
    seq!["ttf", "otf", "woff", "woff2"]
}

/// Extensions shown with the database icon.
pub open spec fn db_exts() -> Seq<&'static str> {
    seq!["sql", "db", "sqlite"]
}

/// The icon of a file with lowercased extension `ext`; a directory with no
/// known extension shows a folder.
pub open spec fn icon_for(ext: Seq<char>, is_dir: bool) -> Seq<char> {
    if listed(ext, image_exts()) {
        "image"@
    } else if listed(ext, video_exts()) {
        "video"@
    } else if listed(ext, music_exts()) {
        "music"@
    } else if listed(ext, text_exts()) {
        "file-text"@
    } else if listed(ext, sheet_exts()) {
        "file-spreadsheet"@
    } else if listed(ext, slide_exts()) {
        "presentation"@
    } else if listed(ext, archive_exts()) {
        "archive"@
    } else if listed(ext, code_exts()) {
        "file-code"@
    } else if listed(ext, data_exts()) {
        "file-json"@
    } else if listed(ext, font_exts()) {
        "type"@
    } else if listed(ext, db_exts()) {
        "database"@
    } else if is_dir {
        "folder"@
    } else {
        "file"@
    }
}

/// The lowercased extension of `path`, empty when it has none.
pub open spec fn lower_extension(path: Seq<char>) -> Seq<char> {
    lower_of(
        match extension_of(path) {
            Some(e) => e,
            None => Seq::empty(),
        },
    )
}

/// The icon name for the file at `path`; `is_dir` tells whether it is a
/// directory.
pub fn file_icon_for_ext(path: &str, is_dir: bool) -> (r: String)
    ensures
        r@ == icon_for(lower_extension(path@), is_dir),
{
    let ext = match path_extension(path) {
        Some(e) => to_lowercase(e.as_str()),
        None => {
            proof {
                reveal_strlit("");
            }
            assert(""@ =~= Seq::<char>::empty());
            to_lowercase("")
        },
    };
    let e = ext.as_str();
    let image: [&str; 9] = ["png", "jpg", "jpeg", "gif", "bmp", "svg", "webp", "ico", "tiff"];
    assert(image@ == image_exts());
    let video: [&str; 7] = ["mp4", "mov", "avi", "mkv", "wmv", "flv", "webm"];
    assert(video@ == video_exts());
    let music: [&str; 7] = ["mp3", "wav", "flac", "aac", "ogg", "m4a", "wma"];
    assert(music@ == music_exts());
    let text: [&str; 9] = ["pdf", "doc", "docx", "rtf", "odt", "pages", "txt", "md", "log"];
    assert(text@ == text_exts());
    let sheet: [&str; 4] = ["xls", "xlsx", "csv", "numbers"];
    assert(sheet@ == sheet_exts());
    let slide: [&str; 4] = ["ppt", "pptx", "key", "keynote"];
    assert(slide@ == slide_exts());
    let archive: [&str; 6] = ["zip", "tar", "gz", "rar", "7z", "dmg"];
    assert(archive@ == archive_exts());
    let code: [&str; 19] = [
        "rs", "js", "ts", "py", "rb", "go", "c", "cpp", "h", "java", "swift", "kt", "vue",
        "jsx", "tsx", "sh", "css", "scss", "html",
    ];
    assert(code@ == code_exts());
    let data: [&str; 7] = ["json", "yaml", "yml", "toml", "xml", "ini", "env"];
    assert(data@ == data_exts());
    let font: [&str; 4] = ["ttf", "otf", "woff", "woff2"];
    assert(font@ == font_exts());
    let db: [&str; 3] = ["sql", "db", "sqlite"];
    assert(db@ == db_exts());
    let name = if one_of(e, &image) {
        "image"
    } else if one_of(e, &video) {
        "video"
    } else if one_of(e, &music) {
        "music"
    } else if one_of(e, &text) {
        "file-text"
    } else if one_of(e, &sheet) {
        "file-spreadsheet"
    } else if one_of(e, &slide) {
        "presentation"
    } else if one_of(e, &archive) {
        "archive"
    } else if one_of(e, &code) {
        "file-code"
    } else if one_of(e, &data) {
        "file-json"
    } else if one_of(e, &font) {
        "type"
    } else if one_of(e, &db) {
        "database"
    } else if is_dir {
        "folder"
    } else {
        "file"
    };
    String::from_str(name)
}

} // verus!

verus! {

/// The result for file match `m`; `is_dir` tells whether it is a directory.
pub open spec fn file_result(m: FileMatchView, is_dir: bool) -> ResultView {
    ResultView {
        id: "file:"@ + m.path,
        title: m.name,
        subtitle: "~/ "@ + m.parent,
        category: "FILE"@,
        icon: icon_for(lower_extension(m.path), is_dir),
        action_data: m.path,
        score: fit_i64(m.score - FILE_PENALTY),
    }
}

/// The result that shows file match `m`, scored below an application with
/// the same score.
pub fn file_search_result(m: &FileMatch, is_dir: bool) -> (r: SearchResult)
    ensures
        r@ == file_result(m@, is_dir),
{
    let score = if m.score < i64::MIN + FILE_PENALTY {
        i64::MIN
    } else {
        m.score - FILE_PENALTY
    };
    SearchResult {
        id: concat("file:", m.path.as_str()),
        title: copy_string(&m.name),
        subtitle: concat("~/ ", m.parent.as_str()),
        category: String::from_str("FILE"),
        icon: file_icon_for_ext(m.path.as_str(), is_dir),
        action_data: copy_string(&m.path),
        score,
    }
}

} // verus!

verus! {

/// A query whose normal form asks for the lock command brings up the Lock
/// result, with the intent bonus added to the fuzzy score of its title (or,
/// when the title does not match, of its subtitle).
pub proof fn lemma_lock_intent_bonus(query: Seq<char>, nq: Seq<char>, b: i64)
    requires
        crate::text::contains(nq, "lock"@),
        match skim_score("Lock Screen"@, query) {
            Some(s) => s == b,
            None => skim_score("System command"@, query) == Some(b),
        },
    ensures
        system_hits(system_commands(), query, nq).contains(
            ResultView { score: fit_i64(b + crate::scoring::INTENT_BONUS), ..system_commands()[2] },
        ),
{
    reveal_strlit("sys:lock");
    reveal_strlit("sys:settings");
    reveal_strlit("sys:sleep");
    let cmds = system_commands();
    let lock = cmds[2];
    assert(lock.id != "sys:settings"@) by {
        assert(lock.id[4] != "sys:settings"@[4]);
    }
    assert(lock.id != "sys:sleep"@) by {
        assert(lock.id[5] != "sys:sleep"@[5]);
    }
    let hit = ResultView { score: fit_i64(b + crate::scoring::INTENT_BONUS), ..lock };
    assert(system_hit(lock, query, nq) == Some(hit));
    let hits = system_hits(cmds, query, nq);
    assert(cmds.last() == lock);
    assert(hits.last() == hit);
}

/// A system command the query does not ask for is kept only with its raw
/// score minus the penalty, and only when that still reaches the minimum.
pub proof fn lemma_no_intent_penalty(cmd: ResultView, query: Seq<char>, nq: Seq<char>)
    requires
        !crate::scoring::signals_intent(nq, cmd.id),
    ensures
        system_hit(cmd, query, nq) matches Some(h) ==> h.score >= crate::scoring::MIN_SYSTEM_SCORE
            && exists|b: i64|
            h.score == fit_i64(b - crate::scoring::INTENT_PENALTY) && (skim_score(cmd.title, query)
                == Some(b) || (skim_score(cmd.title, query) is None && skim_score(
                cmd.subtitle,
                query,
            ) == Some(b))),
{
    match system_hit(cmd, query, nq) {
        Some(h) => {
            let b = match skim_score(cmd.title, query) {
                Some(s) => s,
                None => skim_score(cmd.subtitle, query)->Some_0,
            };
            assert(h.score == fit_i64(b - crate::scoring::INTENT_PENALTY));
        },
        None => {},
    }
}

} // verus!
