//! The application directory: one snapshot of installed applications,
//! replaced wholesale by rescans that a cooldown keeps apart.
use vstd::prelude::*;
use vstd::multiset::Multiset;
use crate::text::ascii_lower_code;

verus! {

/// An installed application: its display name, the path or URI that opens
/// it, and an icon if one is known.
pub struct AppEntry {
    pub name: String,
    pub path: String,
    pub icon: Option<String>,
}

/// The view of an application entry.
pub struct AppView {
    pub name: Seq<char>,
    pub path: Seq<char>,
    pub icon: Option<Seq<char>>,
}

impl View for AppEntry {
    type V = AppView;

    open spec fn view(&self) -> AppView {
        AppView {
            name: self.name@,
            path: self.path@,
            icon: match self.icon {
                Some(i) => Some(i@),
                None => None,
            },
        }
    }
}

/// The views of a sequence of application entries.
pub open spec fn app_views(v: Seq<AppEntry>) -> Seq<AppView> {
    v.map_values(|a: AppEntry| a@)
}

} // verus!

verus! {

broadcast use vstd::seq_lib::group_to_multiset_ensures;

/// `a` and `b` are equal when ASCII letters are compared without case.
pub open spec fn eq_ignore_ascii_case(a: Seq<char>, b: Seq<char>) -> bool {
    a.len() == b.len() && forall|i: int| 0 <= i < a.len() ==> ascii_lower_code(a[i]) == ascii_lower_code(b[i])
}

/// `a` comes no later than `b` in lexicographic order of code points.
pub open spec fn lex_le(a: Seq<char>, b: Seq<char>) -> bool
    decreases a.len(),
{
    if a.len() == 0 {
        true
    } else if b.len() == 0 {
        false
    } else if a[0] != b[0] {
        a[0] < b[0]
    } else {
        lex_le(a.drop_first(), b.drop_first())
    }
}

/// Lexicographic order is total.
pub proof fn lemma_lex_total(a: Seq<char>, b: Seq<char>)
    ensures
        lex_le(a, b) || lex_le(b, a),
    decreases a.len(),
{
    if a.len() > 0 && b.len() > 0 && a[0] == b[0] {
        lemma_lex_total(a.drop_first(), b.drop_first());
    }
}

/// The sort key of an application: its lowercased name.
pub open spec fn app_key(a: AppView) -> Seq<char> {
    crate::text::lower_of(a.name)
}

/// Neighbouring applications are in order of their keys.
pub open spec fn sorted_by_name(s: Seq<AppView>) -> bool {
    forall|i: int| 0 < i < s.len() ==> lex_le(app_key(s[i - 1]), app_key(#[trigger] s[i]))
}

fn lex_le_exec(a: &Vec<char>, b: &Vec<char>) -> (r: bool)
    ensures
        r == lex_le(a@, b@),
{
    let mut i: usize = 0;
    assert(a@.subrange(0, a@.len() as int) == a@);
    assert(b@.subrange(0, b@.len() as int) == b@);
    while i < a.len() && i < b.len() && a[i] == b[i]
        invariant
            i <= a.len(),
            i <= b.len(),
            lex_le(a@, b@) == lex_le(a@.subrange(i as int, a@.len() as int), b@.subrange(i as int, b@.len() as int)),
        decreases a.len() - i,
    {
        let ghost sa = a@.subrange(i as int, a@.len() as int);
        let ghost sb = b@.subrange(i as int, b@.len() as int);
        assert(sa.drop_first() == a@.subrange(i + 1, a@.len() as int));
        assert(sb.drop_first() == b@.subrange(i + 1, b@.len() as int));
        i += 1;
    }
    if i == a.len() {
        assert(a@.subrange(i as int, a@.len() as int).len() == 0);
        true
    } else if i == b.len() {
        false
    } else {
        assert(a@.subrange(i as int, a@.len() as int)[0] == a@[i as int]);
        assert(b@.subrange(i as int, b@.len() as int)[0] == b@[i as int]);
        a[i] < b[i]
    }
}

fn ascii_lower(c: char) -> (r: u32)
    ensures
        r == ascii_lower_code(c),
{
    let code = c as u32;
    if 65 <= code && code <= 90 {
        code + 32
    } else {
        code
    }
}

fn names_match(a: &str, b: &str) -> (r: bool)
    ensures
        r == eq_ignore_ascii_case(a@, b@),
{
    let av = crate::text::chars_of(a);
    let bv = crate::text::chars_of(b);
    if av.len() != bv.len() {
        return false;
    }
    let mut i: usize = 0;
    while i < av.len()
        invariant
            i <= av.len() == bv.len(),
            av@ == a@,
            bv@ == b@,
            forall|k: int| 0 <= k < i ==> ascii_lower_code(a@[k]) == ascii_lower_code(b@[k]),
        decreases av.len() - i,
    {
        if ascii_lower(av[i]) != ascii_lower(bv[i]) {
            return false;
        }
        i += 1;
    }
    true
}

fn copy_app(a: &AppEntry) -> (r: AppEntry)
    ensures
        r@ == a@,
{
    AppEntry {
        name: a.name.clone(),
        path: a.path.clone(),
        icon: match &a.icon {
            Some(i) => Some(i.clone()),
            None => None,
        },
    }
}

fn app_sort_key(a: &AppEntry) -> (r: Vec<char>)
    ensures
        r@ == app_key(a@),
{
    let low = crate::text::to_lowercase(a.name.as_str());
    crate::text::chars_of(low.as_str())
}

/// Comparing names without ASCII case is symmetric.
pub proof fn lemma_eq_ci_sym(a: Seq<char>, b: Seq<char>)
    requires
        eq_ignore_ascii_case(a, b),
    ensures
        eq_ignore_ascii_case(b, a),
{
}

/// Comparing names without ASCII case is transitive.
pub proof fn lemma_eq_ci_trans(a: Seq<char>, b: Seq<char>, c: Seq<char>)
    requires
        eq_ignore_ascii_case(a, b),
        eq_ignore_ascii_case(b, c),
    ensures
        eq_ignore_ascii_case(a, c),
{
    assert forall|i: int| 0 <= i < a.len() implies ascii_lower_code(a[i]) == ascii_lower_code(
        c[i],
    ) by {
        assert(ascii_lower_code(a[i]) == ascii_lower_code(b[i]));
        assert(ascii_lower_code(b[i]) == ascii_lower_code(c[i]));
    }
}

/// Lexicographic order is transitive.
pub proof fn lemma_lex_trans(a: Seq<char>, b: Seq<char>, c: Seq<char>)
    requires
        lex_le(a, b),
        lex_le(b, c),
    ensures
        lex_le(a, c),
    decreases a.len(),
{
    if a.len() > 0 && b.len() > 0 && c.len() > 0 && a[0] == b[0] && b[0] == c[0] {
        lemma_lex_trans(a.drop_first(), b.drop_first(), c.drop_first());
    }
}

/// No two applications of `s` have names equal without ASCII case.
pub open spec fn names_distinct(s: Seq<AppView>) -> bool {
    forall|i: int, j: int|
        0 <= i < j < s.len() ==> !eq_ignore_ascii_case(#[trigger] s[i].name, #[trigger] s[j].name)
}

/// Some application of `s` has the name of `x` without ASCII case, and it has
/// an icon when `x` has one.
pub open spec fn covers(s: Seq<AppView>, x: AppView) -> bool {
    exists|i: int|
        0 <= i < s.len() && eq_ignore_ascii_case(#[trigger] s[i].name, x.name) && (x.icon is Some
            ==> s[i].icon is Some)
}

/// `keys` holds the sort key of each entry of `out`.
pub open spec fn keyed(out: Seq<AppEntry>, keys: Seq<Vec<char>>) -> bool {
    keys.len() == out.len() && forall|k: int| 0 <= k < keys.len() ==> (#[trigger] keys[k])@ == app_key(out[k]@)
}

proof fn lemma_insert_covers(old: Seq<AppView>, j: int, x: AppView, y: AppView)
    requires
        0 <= j <= old.len(),
        covers(old, y),
    ensures
        covers(old.insert(j, x), y),
{
    let i = choose|i: int|
        0 <= i < old.len() && eq_ignore_ascii_case(#[trigger] old[i].name, y.name) && (y.icon is Some
            ==> old[i].icon is Some);
    let n = old.insert(j, x);
    let g = if i < j { i } else { i + 1 };
    assert(n[g] == old[i]);
}

proof fn lemma_insert_distinct(old: Seq<AppView>, j: int, x: AppView)
    requires
        0 <= j <= old.len(),
        names_distinct(old),
        forall|i: int| 0 <= i < old.len() ==> !eq_ignore_ascii_case(#[trigger] old[i].name, x.name),
    ensures
        names_distinct(old.insert(j, x)),
{
    let n = old.insert(j, x);
    assert forall|a: int, b: int| 0 <= a < b < n.len() implies !eq_ignore_ascii_case(
        #[trigger] n[a].name,
        #[trigger] n[b].name,
    ) by {
        let fa = if a < j { a } else { a - 1 };
        let fb = if b < j { b } else { b - 1 };
        if a == j {
            assert(n[a] == x);
            assert(n[b] == old[fb]);
            if eq_ignore_ascii_case(n[a].name, n[b].name) {
                lemma_eq_ci_sym(n[a].name, n[b].name);
            }
        } else if b == j {
            assert(n[a] == old[fa]);
            assert(n[b] == x);
        } else {
            assert(n[a] == old[fa]);
            assert(n[b] == old[fb]);
        }
    }
}

proof fn lemma_replace(old: Seq<AppView>, m: int, j: int, x: AppView, y: AppView)
    requires
        0 <= m < old.len(),
        0 <= j < old.len(),
        names_distinct(old),
        eq_ignore_ascii_case(old[m].name, x.name),
        x.icon is Some,
    ensures
        names_distinct(old.remove(m).insert(j, x)),
        covers(old, y) ==> covers(old.remove(m).insert(j, x), y),
{
    let r = old.remove(m);
    assert forall|i: int| 0 <= i < r.len() implies !eq_ignore_ascii_case(#[trigger] r[i].name, x.name) by {
        let oi = if i < m { i } else { i + 1 };
        assert(r[i] == old[oi]);
        if eq_ignore_ascii_case(r[i].name, x.name) {
            lemma_eq_ci_sym(old[m].name, x.name);
            lemma_eq_ci_trans(old[oi].name, x.name, old[m].name);
            if oi < m {
                assert(!eq_ignore_ascii_case(old[oi].name, old[m].name));
            } else {
                lemma_eq_ci_sym(old[oi].name, old[m].name);
                assert(!eq_ignore_ascii_case(old[m].name, old[oi].name));
            }
        }
    }
    assert(names_distinct(r)) by {
        assert forall|a: int, b: int| 0 <= a < b < r.len() implies !eq_ignore_ascii_case(
            #[trigger] r[a].name,
            #[trigger] r[b].name,
        ) by {
            let oa = if a < m { a } else { a + 1 };
            let ob = if b < m { b } else { b + 1 };
            assert(r[a] == old[oa]);
            assert(r[b] == old[ob]);
        }
    }
    lemma_insert_distinct(r, j, x);
    if covers(old, y) {
        let i = choose|i: int|
            0 <= i < old.len() && eq_ignore_ascii_case(#[trigger] old[i].name, y.name) && (y.icon is Some
                ==> old[i].icon is Some);
        let n = r.insert(j, x);
        if i == m {
            assert(n[j] == x);
            lemma_eq_ci_sym(old[m].name, x.name);
            lemma_eq_ci_trans(x.name, old[m].name, y.name);
        } else {
            let i1 = if i < m { i } else { i - 1 };
            let i2 = if i1 < j { i1 } else { i1 + 1 };
            assert(r[i1] == old[i]);
            assert(n[i2] == old[i]);
        }
    }
}

fn find_same_name(out: &Vec<AppEntry>, name: &str) -> (r: Option<usize>)
    ensures
        match r {
            Some(m) => m < out@.len() && eq_ignore_ascii_case(out@[m as int].name@, name@),
            None => forall|i: int|
                0 <= i < out@.len() ==> !eq_ignore_ascii_case(#[trigger] app_views(out@)[i].name, name@),
        },
{
    let mut m: usize = 0;
    while m < out.len()
        invariant
            m <= out.len(),
            forall|i: int|
                0 <= i < m ==> !eq_ignore_ascii_case(#[trigger] app_views(out@)[i].name, name@),
        decreases out.len() - m,
    {
        if names_match(out[m].name.as_str(), name) {
            return Some(m);
        }
        m += 1;
    }
    None
}

fn insert_sorted(out: &mut Vec<AppEntry>, keys: &mut Vec<Vec<char>>, x: AppEntry) -> (j: usize)
    requires
        keyed(old(out)@, old(keys)@),
        sorted_by_name(app_views(old(out)@)),
    ensures
        keyed(final(out)@, final(keys)@),
        sorted_by_name(app_views(final(out)@)),
        j <= old(out)@.len(),
        app_views(final(out)@) == app_views(old(out)@).insert(j as int, x@),
{
    let key = app_sort_key(&x);
    let mut j: usize = 0;
    while j < out.len() && lex_le_exec(&keys[j], &key)
        invariant
            j <= out.len(),
            keyed(out@, keys@),
            key@ == app_key(x@),
            j > 0 ==> lex_le(app_key(out@[j - 1]@), app_key(x@)),
        decreases out.len() - j,
    {
        j += 1;
    }
    if j < out.len() {
        proof {
            lemma_lex_total(app_key(out@[j as int]@), app_key(x@));
        }
    }
    let ghost s0 = app_views(out@);
    let ghost k0 = keys@;
    out.insert(j, x);
    keys.insert(j, key);
    assert(app_views(out@) =~= s0.insert(j as int, x@));
    assert forall|k: int| 0 <= k < keys.len() implies (#[trigger] keys@[k])@ == app_key(out@[k]@) by {
        if k < j {
            assert(keys@[k] == k0[k]);
        } else if k > j {
            assert(keys@[k] == k0[k - 1]);
        }
    }
    assert(sorted_by_name(app_views(out@))) by {
        let v = app_views(out@);
        assert forall|i: int| 0 < i < v.len() implies lex_le(
            app_key(v[i - 1]),
            app_key(#[trigger] v[i]),
        ) by {
            if i < j {
                assert(v[i - 1] == s0[i - 1]);
                assert(v[i] == s0[i]);
            } else if i == j {
                assert(v[i - 1] == s0[i - 1]);
                assert(v[i] == x@);
            } else if i == j + 1 {
                assert(v[i - 1] == x@);
                assert(v[i] == s0[i - 1]);
            } else {
                assert(v[i - 1] == s0[i - 2]);
                assert(v[i] == s0[i - 1]);
            }
        }
    }
    j
}

fn remove_at(out: &mut Vec<AppEntry>, keys: &mut Vec<Vec<char>>, m: usize)
    requires
        m < old(out)@.len(),
        keyed(old(out)@, old(keys)@),
        sorted_by_name(app_views(old(out)@)),
    ensures
        keyed(final(out)@, final(keys)@),
        sorted_by_name(app_views(final(out)@)),
        app_views(final(out)@) == app_views(old(out)@).remove(m as int),
{
    let ghost s0 = app_views(out@);
    let ghost k0 = keys@;
    out.remove(m);
    keys.remove(m);
    assert(app_views(out@) =~= s0.remove(m as int));
    assert forall|k: int| 0 <= k < keys.len() implies (#[trigger] keys@[k])@ == app_key(out@[k]@) by {
        if k < m {
            assert(keys@[k] == k0[k]);
        } else {
            assert(keys@[k] == k0[k + 1]);
        }
    }
    assert(sorted_by_name(app_views(out@))) by {
        let v = app_views(out@);
        assert forall|i: int| 0 < i < v.len() implies lex_le(
            app_key(v[i - 1]),
            app_key(#[trigger] v[i]),
        ) by {
            if i < m {
                assert(v[i - 1] == s0[i - 1]);
                assert(v[i] == s0[i]);
            } else if i == m {
                assert(v[i - 1] == s0[i - 1]);
                assert(v[i] == s0[i + 1]);
                assert(lex_le(app_key(s0[i - 1]), app_key(s0[i])));
                assert(lex_le(app_key(s0[i]), app_key(s0[i + 1])));
                lemma_lex_trans(app_key(s0[i - 1]), app_key(s0[i]), app_key(s0[i + 1]));
            } else {
                assert(v[i - 1] == s0[i]);
                assert(v[i] == s0[i + 1]);
            }
        }
    }
}

/// Merges the entries of `entries` whose names are equal without ASCII case
/// into one, and orders the result by lowercased name. Of such duplicates
/// the first is kept, unless it has no icon and a later one has: then the
/// first of them with an icon is kept.
pub fn sort_and_merge_apps(entries: Vec<AppEntry>) -> (r: Vec<AppEntry>)
    ensures
        sorted_by_name(app_views(r@)),
        names_distinct(app_views(r@)),
        forall|i: int|
            0 <= i < r@.len() ==> app_views(entries@).contains(#[trigger] app_views(r@)[i]),
        forall|k: int|
            0 <= k < entries@.len() ==> covers(app_views(r@), #[trigger] app_views(entries@)[k]),
{
    let ghost e = app_views(entries@);
    let mut out: Vec<AppEntry> = Vec::new();
    let mut keys: Vec<Vec<char>> = Vec::new();
    assert(app_views(out@) =~= Seq::<AppView>::empty());
    let mut k: usize = 0;
    while k < entries.len()
        invariant
            k <= entries.len(),
            e == app_views(entries@),
            keyed(out@, keys@),
            sorted_by_name(app_views(out@)),
            names_distinct(app_views(out@)),
            forall|i: int| 0 <= i < out@.len() ==> e.contains(#[trigger] app_views(out@)[i]),
            forall|q: int| 0 <= q < k ==> covers(app_views(out@), #[trigger] e[q]),
        decreases entries.len() - k,
    {
        let x = copy_app(&entries[k]);
        assert(x@ == e[k as int]);
        let ghost old_v = app_views(out@);
        match find_same_name(&out, x.name.as_str()) {
            Some(m) => {
                assert(old_v[m as int].name == out@[m as int].name@);
                if out[m].icon.is_none() && x.icon.is_some() {
                    remove_at(&mut out, &mut keys, m);
                    let j = insert_sorted(&mut out, &mut keys, x);
                    proof {
                        assert(x@.icon is Some);
                        lemma_replace(old_v, m as int, j as int, x@, x@);
                        assert forall|q: int| 0 <= q <= k implies covers(
                            app_views(out@),
                            #[trigger] e[q],
                        ) by {
                            lemma_replace(old_v, m as int, j as int, x@, e[q]);
                            if q == k {
                                let n = app_views(out@);
                                assert(n[j as int] == x@);
                                assert(eq_ignore_ascii_case(n[j as int].name, x@.name));
                            }
                        }
                        let n = app_views(out@);
                        assert forall|i: int| 0 <= i < n.len() implies e.contains(#[trigger] n[i]) by {
                            let r = old_v.remove(m as int);
                            if i == j {
                                assert(n[i] == x@);
                                assert(e[k as int] == x@);
                            } else {
                                let i1 = if i < j { i } else { i - 1 };
                                let oi = if i1 < m { i1 } else { i1 + 1 };
                                assert(n[i] == r[i1]);
                                assert(r[i1] == old_v[oi]);
                            }
                        }
                    }
                } else {
                    proof {
                        assert(covers(old_v, x@)) by {
                            assert(eq_ignore_ascii_case(old_v[m as int].name, x@.name));
                        }
                        assert forall|q: int| 0 <= q <= k implies covers(
                            app_views(out@),
                            #[trigger] e[q],
                        ) by {
                            if q == k {
                                assert(e[q] == x@);
                            }
                        }
                    }
                }
            },
            None => {
                let j = insert_sorted(&mut out, &mut keys, x);
                proof {
                    lemma_insert_distinct(old_v, j as int, x@);
                    let n = app_views(out@);
                    assert forall|q: int| 0 <= q <= k implies covers(n, #[trigger] e[q]) by {
                        if q == k {
                            assert(n[j as int] == x@);
                            assert(eq_ignore_ascii_case(n[j as int].name, x@.name));
                        } else {
                            lemma_insert_covers(old_v, j as int, x@, e[q]);
                        }
                    }
                    assert forall|i: int| 0 <= i < n.len() implies e.contains(#[trigger] n[i]) by {
                        if i == j {
                            assert(n[i] == x@);
                            assert(e[k as int] == x@);
                        } else {
                            let oi = if i < j { i } else { i - 1 };
                            assert(n[i] == old_v[oi]);
                        }
                    }
                }
            },
        }
        k += 1;
    }
    out
}

} // verus!

verus! {

/// The application snapshot of a session and the time of its last scan
/// (milliseconds since the epoch).
pub struct AppDirectory {
    entries: Vec<AppEntry>,
    last_refresh_ms: u64,
    initialized: bool,
}

impl AppDirectory {
    /// The applications of the snapshot.
    pub closed spec fn apps(&self) -> Seq<AppView> {
        app_views(self.entries@)
    }

    /// When the snapshot was last scanned.
    pub closed spec fn last_refresh(&self) -> u64 {
        self.last_refresh_ms
    }

    /// A first scan has been installed.
    pub closed spec fn is_initialized(&self) -> bool {
        self.initialized
    }

    /// A directory that has not been scanned yet.
    pub fn new() -> (r: AppDirectory)
        ensures
            r.apps().len() == 0,
            r.last_refresh() == 0,
            !r.is_initialized(),
    {
        let r = AppDirectory { entries: Vec::new(), last_refresh_ms: 0, initialized: false };
        assert(app_views(r.entries@) =~= Seq::<AppView>::empty());
        r
    }
}

fn copy_apps(v: &Vec<AppEntry>) -> (r: Vec<AppEntry>)
    ensures
        app_views(r@) == app_views(v@),
{
    let mut r: Vec<AppEntry> = Vec::new();
    let mut i: usize = 0;
    while i < v.len()
        invariant
            i <= v.len(),
            app_views(r@) == app_views(v@).subrange(0, i as int),
        decreases v.len() - i,
    {
        let c = copy_app(&v[i]);
        let ghost before = r@;
        r.push(c);
        assert(app_views(r@) =~= app_views(before).push(c@));
        assert(app_views(v@).subrange(0, i + 1) =~= app_views(v@).subrange(0, i as int).push(
            v@[i as int]@,
        ));
        i += 1;
    }
    assert(app_views(v@).subrange(0, v.len() as int) == app_views(v@));
    r
}

/// Installs the first scan, `entries`, made at `now_ms`. Later calls change
/// nothing.
pub fn init(dir: &mut AppDirectory, entries: Vec<AppEntry>, now_ms: u64)
    ensures
        !old(dir).is_initialized() ==> final(dir).apps() == app_views(entries@)
            && final(dir).last_refresh() == now_ms && final(dir).is_initialized(),
        old(dir).is_initialized() ==> *final(dir) == *old(dir),
{
    if dir.initialized {
        return;
    }
    dir.entries = entries;
    dir.last_refresh_ms = now_ms;
    dir.initialized = true;
}

/// A copy of the applications of the snapshot; empty before the first scan.
pub fn get_apps(dir: &AppDirectory) -> (r: Vec<AppEntry>)
    ensures
        app_views(r@) == dir.apps(),
{
    copy_apps(&dir.entries)
}

/// Whether a rescan at `now_ms` is due: at least `cooldown_ms` passed since
/// the last one. When it is, the time is recorded at once, so that a second
/// caller within the cooldown is refused; the caller then scans and installs
/// the result with `install_apps`.
pub fn refresh_apps_with_cooldown(dir: &mut AppDirectory, now_ms: u64, cooldown_ms: u64) -> (r: bool)
    ensures
        r == (now_ms as int - old(dir).last_refresh() as int >= cooldown_ms as int
            || (now_ms < old(dir).last_refresh() && cooldown_ms == 0)),
        r ==> final(dir).last_refresh() == now_ms,
        !r ==> final(dir).last_refresh() == old(dir).last_refresh(),
        final(dir).apps() == old(dir).apps(),
        final(dir).is_initialized() == old(dir).is_initialized(),
{
    let elapsed = now_ms.saturating_sub(dir.last_refresh_ms);
    if elapsed < cooldown_ms {
        return false;
    }
    dir.last_refresh_ms = now_ms;
    true
}

/// Replaces the snapshot by the rescan `entries` and returns a copy of it.
pub fn install_apps(dir: &mut AppDirectory, entries: Vec<AppEntry>) -> (r: Vec<AppEntry>)
    ensures
        final(dir).apps() == app_views(entries@),
        app_views(r@) == app_views(entries@),
        final(dir).last_refresh() == old(dir).last_refresh(),
        final(dir).is_initialized(),
{
    let copy = copy_apps(&entries);
    dir.entries = entries;
    dir.initialized = true;
    copy
}

} // verus!

verus! {

/// The macOS system settings panes offered as applications.
pub open spec fn pane_names() -> Seq<&'static str> {
    seq![
        "Wi-Fi", "Bluetooth", "Network", "Sound", "Display", "Wallpaper", "Notifications",
        "Keyboard", "Trackpad", "Privacy & Security", "General", "Appearance", "Battery",
        "Accessibility", "Siri", "Desktop & Dock", "Passwords",
    ]
}

/// The URI that opens each pane of `pane_names`.
pub open spec fn pane_uris() -> Seq<&'static str> {
    seq![
        "x-apple.systempreferences:com.apple.wifi-settings-extension",
        "x-apple.systempreferences:com.apple.BluetoothSettings",
        "x-apple.systempreferences:com.apple.Network-Settings.extension",
        "x-apple.systempreferences:com.apple.Sound-Settings.extension",
        "x-apple.systempreferences:com.apple.Displays-Settings.extension",
        "x-apple.systempreferences:com.apple.Wallpaper-Settings.extension",
        "x-apple.systempreferences:com.apple.Notifications-Settings.extension",
        "x-apple.systempreferences:com.apple.Keyboard-Settings.extension",
        "x-apple.systempreferences:com.apple.Trackpad-Settings.extension",
        "x-apple.systempreferences:com.apple.settings.PrivacySecurity.extension",
        "x-apple.systempreferences:com.apple.General-Settings.extension",
        "x-apple.systempreferences:com.apple.Appearance-Settings.extension",
        "x-apple.systempreferences:com.apple.Battery-Settings.extension",
        "x-apple.systempreferences:com.apple.Accessibility-Settings.extension",
        "x-apple.systempreferences:com.apple.Siri-Settings.extension",
        "x-apple.systempreferences:com.apple.Desktop-Settings.extension",
        "x-apple.systempreferences:com.apple.Passwords-Settings.extension",
    ]
}

/// The application entry of pane `i`: named "<pane> Settings", opened by
/// its URI, without an icon.
pub open spec fn pane_entry(i: int) -> AppView {
    AppView { name: pane_names()[i]@ + " Settings"@, path: pane_uris()[i]@, icon: None }
}

/// Appends an application entry for each macOS system settings pane.
pub fn scan_macos_prefpanes(entries: &mut Vec<AppEntry>)
    ensures
        app_views(final(entries)@) == app_views(old(entries)@) + Seq::new(
            pane_names().len(),
            |i: int| pane_entry(i),
        ),
{
    let names: [&str; 17] = [
        "Wi-Fi", "Bluetooth", "Network", "Sound", "Display", "Wallpaper", "Notifications",
        "Keyboard", "Trackpad", "Privacy & Security", "General", "Appearance", "Battery",
        "Accessibility", "Siri", "Desktop & Dock", "Passwords",
    ];
    let uris: [&str; 17] = [
        "x-apple.systempreferences:com.apple.wifi-settings-extension",
        "x-apple.systempreferences:com.apple.BluetoothSettings",
        "x-apple.systempreferences:com.apple.Network-Settings.extension",
        "x-apple.systempreferences:com.apple.Sound-Settings.extension",
        "x-apple.systempreferences:com.apple.Displays-Settings.extension",
        "x-apple.systempreferences:com.apple.Wallpaper-Settings.extension",
        "x-apple.systempreferences:com.apple.Notifications-Settings.extension",
        "x-apple.systempreferences:com.apple.Keyboard-Settings.extension",
        "x-apple.systempreferences:com.apple.Trackpad-Settings.extension",
        "x-apple.systempreferences:com.apple.settings.PrivacySecurity.extension",
        "x-apple.systempreferences:com.apple.General-Settings.extension",
        "x-apple.systempreferences:com.apple.Appearance-Settings.extension",
        "x-apple.systempreferences:com.apple.Battery-Settings.extension",
        "x-apple.systempreferences:com.apple.Accessibility-Settings.extension",
        "x-apple.systempreferences:com.apple.Siri-Settings.extension",
        "x-apple.systempreferences:com.apple.Desktop-Settings.extension",
        "x-apple.systempreferences:com.apple.Passwords-Settings.extension",
    ];
    assert(names@ == pane_names());
    assert(uris@ == pane_uris());
    let ghost base = app_views(entries@);
    let mut i: usize = 0;
    while i < 17
        invariant
            i <= 17,
            names@ == pane_names(),
            uris@ == pane_uris(),
            app_views(entries@) == base + Seq::new(i as nat, |k: int| pane_entry(k)),
        decreases 17 - i,
    {
        let mut name = String::from_str(names[i]);
        name.append(" Settings");
        let e = AppEntry { name, path: String::from_str(uris[i]), icon: None };
        let ghost before = entries@;
        entries.push(e);
        assert(app_views(entries@) =~= app_views(before).push(e@));
        assert(Seq::new((i + 1) as nat, |k: int| pane_entry(k)) =~= Seq::new(
            i as nat,
            |k: int| pane_entry(k),
        ).push(pane_entry(i as int)));
        i += 1;
    }
}

/// `s` with every leading copy of `p` removed.
pub open spec fn strip_all_prefixes(s: Seq<char>, p: Seq<char>) -> Seq<char>
    decreases s.len(),
{
    if p.len() > 0 && crate::text::is_prefix(p, s) {
        strip_all_prefixes(s.subrange(p.len() as int, s.len() as int), p)
    } else {
        s
    }
}

/// The first of `ls` that starts with `p`.
pub open spec fn first_with_prefix(ls: Seq<Seq<char>>, p: Seq<char>) -> Option<Seq<char>>
    decreases ls.len(),
{
    if ls.len() == 0 {
        None
    } else if crate::text::is_prefix(p, ls[0]) {
        Some(ls[0])
    } else {
        first_with_prefix(ls.drop_first(), p)
    }
}

/// The application name a desktop entry file declares: its first line
/// starting with `Name=`, without that key.
pub open spec fn desktop_name(content: Seq<char>) -> Option<Seq<char>> {
    match first_with_prefix(crate::text::lines_of(content), "Name="@) {
        Some(l) => Some(strip_all_prefixes(l, "Name="@)),
        None => None,
    }
}

/// The application name declared in the text of a desktop entry file.
pub fn desktop_entry_name(content: &str) -> (r: Option<String>)
    ensures
        match r {
            Some(n) => desktop_name(content@) == Some(n@),
            None => desktop_name(content@) is None,
        },
{
    let ls = crate::text::lines(content);
    let ghost lv = crate::text::line_views(ls@);
    let key = crate::text::chars_of("Name=");
    proof {
        reveal_strlit("Name=");
    }
    assert("Name="@ =~= seq!['N', 'a', 'm', 'e', '=']);
    let mut i: usize = 0;
    assert(lv.subrange(0, lv.len() as int) == lv);
    while i < ls.len()
        invariant
            i <= ls.len(),
            lv == crate::text::line_views(ls@),
            lv == crate::text::lines_of(content@),
            key@ == "Name="@,
            key@.len() == 5,
            first_with_prefix(lv, key@) == first_with_prefix(lv.subrange(i as int, lv.len() as int), key@),
        decreases ls.len() - i,
    {
        let ghost rest = lv.subrange(i as int, lv.len() as int);
        assert(rest[0] == ls@[i as int]@);
        assert(rest.drop_first() == lv.subrange(i + 1, lv.len() as int));
        if crate::text::starts_with(&ls[i], &key) {
            let line = &ls[i];
            let mut start: usize = 0;
            assert(line@.subrange(0, line@.len() as int) == line@);
            while line.len() - start >= key.len() && crate::text::matches_at(line, &key, start)
                invariant
                    start <= line.len(),
                    key@ == "Name="@,
                    key@.len() == 5,
                    strip_all_prefixes(line@, key@) == strip_all_prefixes(
                        line@.subrange(start as int, line@.len() as int),
                        key@,
                    ),
                decreases line.len() - start,
            {
                let ghost cur = line@.subrange(start as int, line@.len() as int);
                assert(cur.subrange(0, 5) == line@.subrange(start as int, start + 5));
                assert(cur.subrange(5, cur.len() as int) == line@.subrange(start + 5, line@.len() as int));
                start += key.len();
            }
            let ghost cur = line@.subrange(start as int, line@.len() as int);
            if line.len() - start >= key.len() {
                assert(cur.subrange(0, 5) == line@.subrange(start as int, start + 5));
            }
            assert(!crate::text::is_prefix(key@, cur));
            assert(strip_all_prefixes(cur, key@) == cur);
            assert(first_with_prefix(lv, key@) == Some(line@));
            return Some(crate::text::string_of_range(line, start, line.len()));
        }
        i += 1;
    }
    None
}

} // verus!

verus! {

/// The name shown for an executable `exe` found in Windows store package
/// `package`: a few well-known packages keep their product name.
pub open spec fn store_app_name(package: Seq<char>, exe: Seq<char>) -> Seq<char> {
    if crate::text::contains(package, "WhatsApp"@) {
        "WhatsApp"@
    } else if crate::text::contains(package, "Spotify"@) {
        "Spotify"@
    } else if crate::text::contains(package, "Telegram"@) {
        "Telegram"@
    } else if crate::text::contains(package, "Discord"@) {
        "Discord"@
    } else {
        exe
    }
}

/// The name shown for executable `exe` of Windows store package `package`.
pub fn friendly_app_name(package: &str, exe: &str) -> (r: String)
    ensures
        r@ == store_app_name(package@, exe@),
{
    let name = if crate::text::str_contains(package, "WhatsApp") {
        "WhatsApp"
    } else if crate::text::str_contains(package, "Spotify") {
        "Spotify"
    } else if crate::text::str_contains(package, "Telegram") {
        "Telegram"
    } else if crate::text::str_contains(package, "Discord") {
        "Discord"
    } else {
        exe
    };
    String::from_str(name)
}

/// An executable of a store package that is no application of its own: it
/// has no name, or it is a bootstrapper or runtime.
pub fn is_helper_executable(name: &str) -> (r: bool)
    ensures
        r == (name@.len() == 0 || crate::text::contains(name@, "Bootstrap"@)
            || crate::text::contains(name@, "Runtime"@)),
{
    name.unicode_len() == 0 || crate::text::str_contains(name, "Bootstrap")
        || crate::text::str_contains(name, "Runtime")
}

/// Whether an application named like `name` (without case) is among
/// `entries`.
pub fn has_app_named(entries: &[AppEntry], name: &str) -> (r: bool)
    ensures
        r == exists|i: int|
            0 <= i < entries@.len() && crate::text::lower_of(#[trigger] entries@[i].name@)
                == crate::text::lower_of(name@),
{
    let target = crate::text::to_lowercase(name);
    let mut i: usize = 0;
    while i < entries.len()
        invariant
            i <= entries.len(),
            target@ == crate::text::lower_of(name@),
            forall|k: int|
                0 <= k < i ==> crate::text::lower_of(#[trigger] entries@[k].name@) != target@,
        decreases entries.len() - i,
    {
        let low = crate::text::to_lowercase(entries[i].name.as_str());
        if crate::text::str_eq(low.as_str(), target.as_str()) {
            return true;
        }
        i += 1;
    }
    false
}

} // verus!
