//! The file index: a snapshot of the names found under the configured
//! folders, searched without waiting and refreshed one rebuild at a time.
use vstd::prelude::*;
use vstd::multiset::Multiset;
use crate::text::{chars_of, str_eq};
use crate::scoring::{Matcher, skim_score};

verus! {

broadcast use vstd::seq_lib::group_to_multiset_ensures;

/// Age after which a snapshot is rebuilt, in milliseconds.
pub const INDEX_TTL_MS: u64 = 300_000;
/// Depth of the walk below each folder.
pub const MAX_SCAN_DEPTH: usize = 2;
/// Most entries one snapshot holds.
pub const MAX_SCAN_FILES: usize = 12_000;
/// Time budget of the walk of one folder, in milliseconds.
pub const MAX_FOLDER_SCAN_MS: u128 = 120;
/// Most matches one search returns.
pub const MAX_FILE_RESULTS: usize = 3;
/// Lowest fuzzy score a file match needs.
pub const MIN_FILE_SCORE: i64 = 30;
/// Shortest query, in characters, that searches files.
pub const MIN_QUERY_CHARS: usize = 3;

/// A file found by the walk: its name, its full path and its directory.
pub struct FileEntry {
    pub name: String,
    pub path: String,
    pub parent: String,
}

/// A file that matched a query, with its directory as shown to the user.
pub struct FileMatch {
    pub name: String,
    pub path: String,
    pub parent: String,
    pub score: i64,
}

/// The view of a file entry.
pub struct FileEntryView {
    pub name: Seq<char>,
    pub path: Seq<char>,
    pub parent: Seq<char>,
}

/// The view of a file match.
pub struct FileMatchView {
    pub name: Seq<char>,
    pub path: Seq<char>,
    pub parent: Seq<char>,
    pub score: int,
}

impl View for FileEntry {
    type V = FileEntryView;

    open spec fn view(&self) -> FileEntryView {
        FileEntryView { name: self.name@, path: self.path@, parent: self.parent@ }
    }
}

impl View for FileMatch {
    type V = FileMatchView;

    open spec fn view(&self) -> FileMatchView {
        FileMatchView {
            name: self.name@,
            path: self.path@,
            parent: self.parent@,
            score: self.score as int,
        }
    }
}

/// The views of a sequence of file entries.
pub open spec fn entry_views(v: Seq<FileEntry>) -> Seq<FileEntryView> {
    v.map_values(|e: FileEntry| e@)
}

/// The views of a sequence of file matches.
pub open spec fn match_views(v: Seq<FileMatch>) -> Seq<FileMatchView> {
    v.map_values(|m: FileMatch| m@)
}

/// The texts of a sequence of strings.
pub open spec fn texts(v: Seq<String>) -> Seq<Seq<char>> {
    v.map_values(|s: String| s@)
}

/// What `Path::strip_prefix` leaves of `path` below `base`, if `base` is a
/// leading part of it.
pub uninterp spec fn path_below(path: Seq<char>, base: Seq<char>) -> Option<Seq<char>>;

/// What `Path::file_name` gives for `path`, when it is valid text.
pub uninterp spec fn file_name_of(path: Seq<char>) -> Option<Seq<char>>;

/// Relies on `Path::strip_prefix`: the rest of `path` below `base`,
/// compared component by component.
#[verifier::external_body]
fn strip_path_prefix(path: &str, base: &str) -> (r: Option<String>)
    ensures
        match r {
            Some(s) => path_below(path@, base@) == Some(s@),
            None => path_below(path@, base@) is None,
        },
{
    std::path::Path::new(path).strip_prefix(base).ok().map(|p| p.to_string_lossy().to_string())
}

/// Relies on `Path::file_name` and `OsStr::to_str`: the last component of
/// `path`, if there is one.
#[verifier::external_body]
fn path_file_name(path: &str) -> (r: Option<String>)
    ensures
        match r {
            Some(s) => file_name_of(path@) == Some(s@),
            None => file_name_of(path@) is None,
        },
{
    std::path::Path::new(path).file_name().and_then(|n| n.to_str()).map(|n| n.to_string())
}

/// The directory `parent` as shown: relative to `home` where it lies below
/// it, else unchanged.
pub open spec fn shown_parent(parent: Seq<char>, home: Seq<char>) -> Seq<char> {
    match path_below(parent, home) {
        Some(rest) => rest,
        None => parent,
    }
}

/// `parent` relative to `home` where possible.
pub fn display_parent(parent: &str, home: &str) -> (r: String)
    ensures
        r@ == shown_parent(parent@, home@),
{
    match strip_path_prefix(parent, home) {
        Some(rest) => rest,
        None => String::from_str(parent),
    }
}

/// The walk skips `path`: its name starts with a dot, or it has no name that
/// is valid text.
pub open spec fn hidden(path: Seq<char>) -> bool {
    match file_name_of(path) {
        Some(n) => n.len() > 0 && n[0] == '.',
        None => true,
    }
}

/// Whether the walk skips `path`.
pub fn is_hidden(path: &str) -> (r: bool)
    ensures
        r == hidden(path@),
{
    match path_file_name(path) {
        Some(n) => {
            let v = chars_of(n.as_str());
            v.len() > 0 && v[0] == '.'
        },
        None => true,
    }
}

/// Whether the walk of a folder stops: the index is full or the folder's
/// time budget is spent.
pub fn scan_budget_exhausted(count: usize, elapsed_ms: u128) -> (r: bool)
    ensures
        r == (count >= MAX_SCAN_FILES || elapsed_ms > MAX_FOLDER_SCAN_MS),
{
    count >= MAX_SCAN_FILES || elapsed_ms > MAX_FOLDER_SCAN_MS
}

/// The match for `e` with score `s`.
pub open spec fn file_match(e: FileEntryView, s: int, home: Seq<char>) -> FileMatchView {
    FileMatchView { name: e.name, path: e.path, parent: shown_parent(e.parent, home), score: s }
}

/// The matches among `entries` for `query`: those whose name the fuzzy
/// matcher scores at least `MIN_FILE_SCORE`, in order.
pub open spec fn file_hits(entries: Seq<FileEntryView>, query: Seq<char>, home: Seq<char>) -> Seq<FileMatchView>
    decreases entries.len(),
{
    if entries.len() == 0 {
        Seq::empty()
    } else {
        let rest = file_hits(entries.drop_last(), query, home);
        let e = entries.last();
        match skim_score(e.name, query) {
            Some(s) => if s >= MIN_FILE_SCORE {
                rest.push(file_match(e, s as int, home))
            } else {
                rest
            },
            None => rest,
        }
    }
}

/// Each match scores at least as much as every one after it.
pub open spec fn matches_sorted(s: Seq<FileMatchView>) -> bool {
    forall|i: int, j: int| 0 <= i < j < s.len() ==> s[i].score >= s[j].score
}

/// `r` is the top of `s`: the first `MAX_FILE_RESULTS` entries of some
/// ordering of `s` by descending score.
pub open spec fn top_matches(r: Seq<FileMatchView>, s: Seq<FileMatchView>) -> bool {
    exists|p: Seq<FileMatchView>|
        #![trigger p.to_multiset()]
        p.to_multiset() == s.to_multiset() && matches_sorted(p) && r == p.subrange(
            0,
            if p.len() <= MAX_FILE_RESULTS {
                p.len() as int
            } else {
                MAX_FILE_RESULTS as int
            },
        )
}

fn sort_matches(v: Vec<FileMatch>) -> (r: Vec<FileMatch>)
    ensures
        match_views(r@).to_multiset() == match_views(v@).to_multiset(),
        matches_sorted(match_views(r@)),
{
    let mut rest = v;
    let mut sorted: Vec<FileMatch> = Vec::new();
    assert(match_views(sorted@) =~= Seq::<FileMatchView>::empty());
    while rest.len() > 0
        invariant
            match_views(sorted@).to_multiset().add(match_views(rest@).to_multiset())
                == match_views(v@).to_multiset(),
            matches_sorted(match_views(sorted@)),
        decreases rest.len(),
    {
        let ghost rest0 = rest@;
        let item = match rest.pop() {
            Some(x) => x,
            None => {
                return sorted;
            },
        };
        assert(match_views(rest0) =~= match_views(rest@).push(item@));
        let mut j: usize = 0;
        while j < sorted.len() && sorted[j].score >= item.score
            invariant
                j <= sorted.len(),
                forall|k: int| 0 <= k < j ==> sorted@[k].score >= item.score,
            decreases sorted.len() - j,
        {
            j += 1;
        }
        let ghost s0 = match_views(sorted@);
        sorted.insert(j, item);
        assert(match_views(sorted@) =~= s0.insert(j as int, item@));
        assert(matches_sorted(match_views(sorted@))) by {
            assert forall|a: int, b: int| 0 <= a < b < match_views(sorted@).len() implies match_views(
                sorted@,
            )[a].score >= match_views(sorted@)[b].score by {
                if j < s0.len() {
                    assert(s0[j as int].score < item.score);
                }
                if a < j && b > j {
                    assert(s0[a].score >= item.score);
                    if j < s0.len() {
                        assert(s0[b - 1].score <= s0[j as int].score);
                    }
                } else if a == j && b > j {
                    assert(s0[b - 1].score <= s0[j as int].score);
                }
            }
        }
        assert(match_views(sorted@).to_multiset() == s0.to_multiset().insert(item@));
        assert(match_views(rest0).to_multiset() == match_views(rest@).to_multiset().insert(item@));
        assert(match_views(sorted@).to_multiset().add(match_views(rest@).to_multiset())
            =~= s0.to_multiset().add(match_views(rest0).to_multiset()));
    }
    assert(match_views(rest@).to_multiset() =~= Multiset::<FileMatchView>::empty());
    assert(match_views(sorted@).to_multiset() =~= match_views(sorted@).to_multiset().add(
        match_views(rest@).to_multiset(),
    ));
    sorted
}

/// The best file matches for `query` among `entries`, with directories
/// shown relative to `home`. A query of fewer than three characters finds
/// nothing, whatever the entries.
pub fn search(query: &str, matcher: &Matcher, entries: &[FileEntry], home: &str) -> (r: Vec<FileMatch>)
    ensures
        query@.len() < MIN_QUERY_CHARS ==> r@.len() == 0,
        query@.len() >= MIN_QUERY_CHARS ==> top_matches(
            match_views(r@),
            file_hits(entry_views(entries@), query@, home@),
        ),
{
    if query.unicode_len() < MIN_QUERY_CHARS {
        return Vec::new();
    }
    let mut matches: Vec<FileMatch> = Vec::new();
    let mut i: usize = 0;
    while i < entries.len()
        invariant
            i <= entries.len(),
            match_views(matches@) == file_hits(
                entry_views(entries@).subrange(0, i as int),
                query@,
                home@,
            ),
        decreases entries.len() - i,
    {
        let ghost pre = entry_views(entries@).subrange(0, i as int);
        assert(entry_views(entries@).subrange(0, i + 1).drop_last() == pre);
        let entry = &entries[i];
        match matcher.fuzzy_match(entry.name.as_str(), query) {
            Some(score) => {
                if score >= MIN_FILE_SCORE {
                    let m = FileMatch {
                        name: entry.name.clone(),
                        path: entry.path.clone(),
                        parent: display_parent(entry.parent.as_str(), home),
                        score,
                    };
                    let ghost before = matches@;
                    matches.push(m);
                    assert(match_views(matches@) =~= match_views(before).push(m@));
                }
            },
            None => {},
        }
        i += 1;
    }
    assert(entry_views(entries@).subrange(0, entries.len() as int) == entry_views(entries@));
    let mut sorted = sort_matches(matches);
    let ghost p = match_views(sorted@);
    sorted.truncate(MAX_FILE_RESULTS);
    assert(match_views(sorted@) =~= p.subrange(
        0,
        if p.len() <= MAX_FILE_RESULTS {
            p.len() as int
        } else {
            MAX_FILE_RESULTS as int
        },
    ));
    sorted
}

} // verus!

verus! {

/// One built snapshot: the folders it was built from, the entries found in
/// them, and when it was built (milliseconds since the epoch).
pub struct FileIndexState {
    pub folders: Vec<String>,
    pub entries: Vec<FileEntry>,
    pub built_at_ms: u64,
}

/// A snapshot built from `folders` at `built_at` must be rebuilt for
/// `wanted` folders at time `now`: it is empty, was built from other folders,
/// is dated in the future, or is older than the time-to-live.
pub open spec fn stale(
    entry_count: nat,
    folders: Seq<Seq<char>>,
    built_at: int,
    wanted: Seq<Seq<char>>,
    now: int,
) -> bool {
    entry_count == 0 || folders != wanted || now < built_at || now - built_at > INDEX_TTL_MS
}

/// The current snapshot of the file index and whether a rebuild is running.
///
/// The snapshot only ever changes as a whole, to the folders, entries and
/// time of one finished rebuild, and at most one rebuild runs at a time.
pub struct FileIndex {
    state: FileIndexState,
    refreshing: bool,
    installed: Ghost<Seq<FileIndexState>>,
}

fn copy_entries(v: &Vec<FileEntry>) -> (r: Vec<FileEntry>)
    ensures
        entry_views(r@) == entry_views(v@),
{
    let mut r: Vec<FileEntry> = Vec::new();
    let mut i: usize = 0;
    while i < v.len()
        invariant
            i <= v.len(),
            entry_views(r@) == entry_views(v@).subrange(0, i as int),
        decreases v.len() - i,
    {
        let e = &v[i];
        let c = FileEntry { name: e.name.clone(), path: e.path.clone(), parent: e.parent.clone() };
        let ghost before = r@;
        r.push(c);
        assert(entry_views(r@) =~= entry_views(before).push(c@));
        assert(entry_views(v@).subrange(0, i + 1) =~= entry_views(v@).subrange(0, i as int).push(
            v@[i as int]@,
        ));
        i += 1;
    }
    assert(entry_views(v@).subrange(0, v.len() as int) == entry_views(v@));
    r
}

fn same_folders(a: &[String], b: &[String]) -> (r: bool)
    ensures
        r == (texts(a@) == texts(b@)),
{
    if a.len() != b.len() {
        assert(texts(a@).len() != texts(b@).len());
        return false;
    }
    let mut i: usize = 0;
    while i < a.len()
        invariant
            i <= a.len() == b.len(),
            forall|k: int| 0 <= k < i ==> a@[k]@ == b@[k]@,
        decreases a.len() - i,
    {
        if !str_eq(a[i].as_str(), b[i].as_str()) {
            assert(texts(a@)[i as int] != texts(b@)[i as int]);
            return false;
        }
        i += 1;
    }
    assert(texts(a@) =~= texts(b@));
    true
}

impl FileIndex {
    /// The snapshot.
    pub closed spec fn current(&self) -> FileIndexState {
        self.state
    }

    /// A rebuild is running.
    pub closed spec fn is_refreshing(&self) -> bool {
        self.refreshing
    }

    /// Every snapshot installed so far, oldest first: the initial empty one,
    /// then the result of each finished rebuild.
    pub closed spec fn installed(&self) -> Seq<FileIndexState> {
        self.installed@
    }

    /// The snapshot is the one installed last.
    pub closed spec fn wf(&self) -> bool {
        self.installed@.len() > 0 && self.installed@.last() == self.state
    }

    /// An index with an empty snapshot dated at the epoch and no rebuild
    /// running.
    pub fn new() -> (r: FileIndex)
        ensures
            texts(r.current().folders@) == Seq::<Seq<char>>::empty(),
            r.current().entries@.len() == 0,
            r.current().built_at_ms == 0,
            !r.is_refreshing(),
            r.wf(),
            r.installed() == seq![r.current()],
    {
        let state = FileIndexState { folders: Vec::new(), entries: Vec::new(), built_at_ms: 0 };
        let history: Ghost<Seq<FileIndexState>> = Ghost(Seq::empty().push(state));
        let r = FileIndex { state, refreshing: false, installed: history };
        assert(texts(r.state.folders@) =~= Seq::<Seq<char>>::empty());
        r
    }

    /// Whether the snapshot must be rebuilt for `folders` at `now_ms`.
    pub fn needs_refresh(&self, folders: &[String], now_ms: u64) -> (r: bool)
        ensures
            r == stale(
                self.current().entries@.len(),
                texts(self.current().folders@),
                self.current().built_at_ms as int,
                texts(folders@),
                now_ms as int,
            ),
    {
        if self.state.entries.len() == 0 || !same_folders(self.state.folders.as_slice(), folders) {
            return true;
        }
        now_ms < self.state.built_at_ms || now_ms - self.state.built_at_ms > INDEX_TTL_MS
    }

    /// Claims the rebuild for `folders` at `now_ms` when the snapshot is
    /// stale and no rebuild runs; `true` means the caller now runs it. The
    /// snapshot itself is left as it is.
    pub fn begin_refresh(&mut self, folders: &[String], now_ms: u64) -> (r: bool)
        requires
            old(self).wf(),
        ensures
            final(self).wf(),
            final(self).installed() == old(self).installed(),
            r == (!old(self).is_refreshing() && stale(
                old(self).current().entries@.len(),
                texts(old(self).current().folders@),
                old(self).current().built_at_ms as int,
                texts(folders@),
                now_ms as int,
            )),
            final(self).is_refreshing() == (old(self).is_refreshing() || r),
            final(self).current() == old(self).current(),
    {
        if self.refreshing || !self.needs_refresh(folders, now_ms) {
            return false;
        }
        self.refreshing = true;
        true
    }

    /// Installs the result of a finished rebuild, folders, entries and time
    /// together, and frees the rebuild.
    pub fn complete_refresh(&mut self, folders: Vec<String>, entries: Vec<FileEntry>, built_at_ms: u64)
        requires
            old(self).wf(),
        ensures
            final(self).current() == (FileIndexState { folders, entries, built_at_ms }),
            !final(self).is_refreshing(),
            final(self).wf(),
            final(self).installed() == old(self).installed().push(
                FileIndexState { folders, entries, built_at_ms },
            ),
    {
        let snapshot = FileIndexState { folders, entries, built_at_ms };
        let history: Ghost<Seq<FileIndexState>> = Ghost(self.installed@.push(snapshot));
        self.state = snapshot;
        self.refreshing = false;
        self.installed = history;
    }

    /// A copy of the entries of the snapshot.
    pub fn snapshot_entries(&self) -> (r: Vec<FileEntry>)
        ensures
            entry_views(r@) == entry_views(self.current().entries@),
    {
        copy_entries(&self.state.entries)
    }
}

/// What an observer of the index sees is always one snapshot installed as a
/// whole: the initial one or the folders, entries and time of one finished
/// rebuild, never fields of two different ones.
pub proof fn lemma_snapshot_produced_together(index: &FileIndex)
    requires
        index.wf(),
    ensures
        exists|k: int| 0 <= k < index.installed().len() && index.installed()[k] == index.current(),
{
    assert(index.installed()[index.installed().len() - 1] == index.current());
}

} // verus!
