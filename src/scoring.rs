//! Relevance of a candidate name for a query: a ladder of match tiers, the
//! earliest accepting tier deciding the score.
use vstd::prelude::*;
use fuzzy_matcher::skim::SkimMatcherV2;
use fuzzy_matcher::FuzzyMatcher;
use crate::text::{
    is_alnum, lower_of, lower_of_char, normalized, occurs_at, is_prefix, contains,
    is_first_occurrence, char_is_alphanumeric, char_to_lowercase, to_lowercase, chars_of,
    string_of, append_chars, matches_at, find, starts_with, normalize_chars, str_contains,
    str_eq, utf8_len, utf8_byte_len,
};
use crate::commands::SearchResult;

verus! {

/// What a newly made skim fuzzy matcher, in its default configuration,
/// scores for a choice and a pattern.
pub uninterp spec fn skim_score(choice: Seq<char>, pattern: Seq<char>) -> Option<i64>;

/// Score of an exact match.
pub const EXACT_SCORE: i64 = 10_000;
/// Base of the prefix tier, from which the candidate's byte length is taken.
pub const PREFIX_BASE: i64 = 8_400;
/// Lowest score of the prefix tier, just above a word-start match.
pub const PREFIX_FLOOR: i64 = 7_901;
/// Score of a word-start match.
pub const WORD_START_SCORE: i64 = 7_900;
/// Score of an acronym match.
pub const ACRONYM_SCORE: i64 = 7_700;
/// Base of the substring tier, from which 25 per character of offset is taken.
pub const SUBSTRING_BASE: i64 = 7_400;
/// Lowest score of the substring tier, just above the fuzzy tier.
pub const SUBSTRING_FLOOR: i64 = 4_001;
/// Base of the fuzzy tier.
pub const FUZZY_BASE: i64 = 1_200;
/// Largest fuzzy score carried into the fuzzy tier.
pub const FUZZY_CAP: i64 = 2_800;

/// The skim fuzzy matcher of `fuzzy_matcher`. Each score is computed by a
/// matcher made for that call in the default configuration: a matcher that
/// is reused keeps score buffers between calls, which earlier calls can
/// influence.
pub struct Matcher {}

impl Matcher {
    /// A matcher.
    pub fn new() -> (r: Matcher) {
        Matcher {}
    }

    /// Relies on `FuzzyMatcher::fuzzy_match` of a new
    /// `SkimMatcherV2::default()`: the score of `pattern` within `choice`, if
    /// it matches at all; an empty pattern scores 0.
    #[verifier::external_body]
    pub(crate) fn fuzzy_match(&self, choice: &str, pattern: &str) -> (r: Option<i64>)
        ensures
            r == skim_score(choice@, pattern@),
            pattern@.len() == 0 ==> r == Some(0i64),
    {
        SkimMatcherV2::default().fuzzy_match(choice, pattern)
    }
}

/// `x`, saturated into the range of `i64`.
pub open spec fn fit_i64(x: int) -> int {
    if x < i64::MIN {
        i64::MIN as int
    } else if x > i64::MAX {
        i64::MAX as int
    } else {
        x
    }
}

/// The score of a prefix match on a candidate of `len` bytes: lower for
/// longer candidates, but never down to a word-start match.
pub open spec fn prefix_score(len: int) -> int {
    if PREFIX_BASE - len >= PREFIX_FLOOR {
        PREFIX_BASE - len
    } else {
        PREFIX_FLOOR as int
    }
}

/// The score of a substring match at character offset `k`: lower for later
/// offsets, but never down to a fuzzy match.
pub open spec fn substring_score(k: int) -> int {
    if SUBSTRING_BASE - 25 * k >= SUBSTRING_FLOOR {
        SUBSTRING_BASE - 25 * k
    } else {
        SUBSTRING_FLOOR as int
    }
}

/// An optional machine score read as an optional integer.
pub open spec fn as_score(r: Option<i64>) -> Option<int> {
    match r {
        Some(v) => Some(v as int),
        None => None,
    }
}

/// `q` is a prefix of the word of `t` that starts at `i`: `i` opens a run of
/// alphanumeric characters and `q` lies inside that run.
pub open spec fn word_starts_with(t: Seq<char>, q: Seq<char>, i: int) -> bool {
    &&& occurs_at(t, q, i)
    &&& (i == 0 || !is_alnum(t[i - 1]))
    &&& forall|j: int| i <= j < i + q.len() ==> is_alnum(#[trigger] t[j])
}

/// Some alphanumeric word of `t` starts with `q`.
pub open spec fn has_word_starting_with(t: Seq<char>, q: Seq<char>) -> bool {
    exists|i: int| word_starts_with(t, q, i)
}

/// `i` is the first character of an alphanumeric word of `t`.
pub open spec fn opens_word(t: Seq<char>, i: int) -> bool {
    0 <= i < t.len() && is_alnum(t[i]) && (i == 0 || !is_alnum(t[i - 1]))
}

/// The first character of each alphanumeric word of `t`, lowercased.
pub open spec fn acronym(t: Seq<char>) -> Seq<char>
    decreases t.len(),
{
    if t.len() == 0 {
        Seq::empty()
    } else if opens_word(t, t.len() - 1) {
        acronym(t.drop_last()) + lower_of_char(t.last())
    } else {
        acronym(t.drop_last())
    }
}

/// How many characters of `q` a left-to-right greedy scan of `t` finds in
/// order.
pub open spec fn greedy_matched(t: Seq<char>, q: Seq<char>) -> nat
    decreases t.len(),
{
    if t.len() == 0 {
        0
    } else {
        let m = greedy_matched(t.drop_last(), q);
        if m < q.len() && t.last() == q[m as int] {
            m + 1
        } else {
            m
        }
    }
}

/// The share of `q` found in order in `t` reaches the minimum: 45% for
/// queries of at most two characters, 62% for longer ones.
pub open spec fn coverage_sufficient(t: Seq<char>, q: Seq<char>) -> bool {
    let m = greedy_matched(t, q);
    if q.len() <= 2 {
        100 * m >= 45 * q.len()
    } else {
        100 * m >= 62 * q.len()
    }
}

/// `x` limited to `[lo, hi]`.
pub open spec fn clamp(x: int, lo: int, hi: int) -> int {
    if x < lo {
        lo
    } else if x > hi {
        hi
    } else {
        x
    }
}

/// The score of the fuzzy tier, once coverage has been accepted.
pub open spec fn fuzzy_tier(nt: Seq<char>, nq: Seq<char>) -> Option<int> {
    match skim_score(nt, nq) {
        Some(s) => Some(FUZZY_BASE + clamp(s as int, 0, FUZZY_CAP as int)),
        None => None,
    }
}

/// The relevance of candidate `name` for `query`, or `None` for no match.
///
/// Both are normalised (alphanumerics only, lowercased) after the candidate
/// has been lowercased as a whole; the first tier that accepts decides:
/// exact, prefix, word start, acronym, substring, then a fuzzy fallback
/// gated by subsequence coverage.
pub open spec fn match_score(name: Seq<char>, query: Seq<char>) -> Option<int> {
    let nq = normalized(query);
    let title = lower_of(name);
    let nt = normalized(title);
    if nq.len() == 0 {
        None
    } else if nt == nq {
        Some(EXACT_SCORE as int)
    } else if is_prefix(nq, nt) {
        Some(prefix_score(utf8_len(title) as int))
    } else if has_word_starting_with(title, nq) {
        Some(WORD_START_SCORE as int)
    } else if is_prefix(nq, acronym(title)) {
        Some(ACRONYM_SCORE as int)
    } else if contains(nt, nq) {
        Some(substring_score(choose|k: int| is_first_occurrence(nt, nq, k)))
    } else if !coverage_sufficient(nt, nq) {
        None
    } else {
        fuzzy_tier(nt, nq)
    }
}

/// The normalised form of a string: its alphanumeric characters, lowercased.
/// For ASCII input these are its letters and digits, in order, in lower
/// case.
pub fn normalize_for_match(input: &str) -> (r: String)
    ensures
        r@ == normalized(input@),
        crate::text::all_ascii(input@) ==> crate::text::codes(r@)
            == crate::text::ascii_normalized_codes(input@),
{
    let v = chars_of(input);
    let n = normalize_chars(&v);
    string_of(&n)
}

fn acronym_chars(t: &Vec<char>) -> (r: Vec<char>)
    ensures
        r@ == acronym(t@),
{
    let mut r: Vec<char> = Vec::new();
    let mut i: usize = 0;
    let mut prev_alnum = false;
    while i < t.len()
        invariant
            i <= t.len(),
            r@ == acronym(t@.subrange(0, i as int)),
            i > 0 ==> prev_alnum == is_alnum(t@[i - 1]),
        decreases t.len() - i,
    {
        let ghost before = t@.subrange(0, i as int);
        let ghost upto = t@.subrange(0, i + 1);
        assert(upto.drop_last() == before);
        let c = t[i];
        let alnum = char_is_alphanumeric(c);
        if alnum && (i == 0 || !prev_alnum) {
            let low = char_to_lowercase(c);
            append_chars(&mut r, low.as_str());
        }
        assert(opens_word(upto, i as int) == (alnum && (i == 0 || !prev_alnum)));
        prev_alnum = alnum;
        i += 1;
    }
    assert(t@.subrange(0, t.len() as int) == t@);
    r
}

/// The first character of each alphanumeric word of `input`, lowercased.
pub fn app_acronym(input: &str) -> (r: String)
    ensures
        r@ == acronym(input@),
{
    let v = chars_of(input);
    let a = acronym_chars(&v);
    string_of(&a)
}

/// Whether every character of `t` in `[from, to)` is alphanumeric.
fn all_alnum(t: &Vec<char>, from: usize, to: usize) -> (r: bool)
    requires
        from <= to <= t.len(),
    ensures
        r == forall|j: int| from <= j < to ==> is_alnum(#[trigger] t@[j]),
{
    let mut j = from;
    while j < to
        invariant
            from <= j <= to <= t.len(),
            forall|k: int| from <= k < j ==> is_alnum(#[trigger] t@[k]),
        decreases to - j,
    {
        if !char_is_alphanumeric(t[j]) {
            return false;
        }
        j += 1;
    }
    true
}

fn has_word_start(t: &Vec<char>, q: &Vec<char>) -> (r: bool)
    ensures
        r == has_word_starting_with(t@, q@),
{
    let mut i: usize = 0;
    loop
        invariant
            i <= t.len(),
            forall|j: int| 0 <= j < i ==> !word_starts_with(t@, q@, j),
        decreases t.len() - i,
    {
        if matches_at(t, q, i) {
            let opens = i == 0 || !char_is_alphanumeric(t[i - 1]);
            if opens && all_alnum(t, i, i + q.len()) {
                assert(word_starts_with(t@, q@, i as int));
                return true;
            }
        }
        if i == t.len() {
            assert forall|j: int| !word_starts_with(t@, q@, j) by {
                if 0 <= j && j <= i {
                }
            }
            return false;
        }
        i += 1;
    }
}

/// How many characters of `query` a left-to-right greedy scan of `title`
/// finds in order; the coverage of `query` is this count over its length.
pub fn subsequence_coverage(title: &Vec<char>, query: &Vec<char>) -> (r: usize)
    ensures
        r == greedy_matched(title@, query@),
        r <= query@.len(),
{
    let mut matched: usize = 0;
    let mut i: usize = 0;
    while i < title.len()
        invariant
            i <= title.len(),
            matched == greedy_matched(title@.subrange(0, i as int), query@),
            matched <= query@.len(),
        decreases title.len() - i,
    {
        assert(title@.subrange(0, i + 1).drop_last() == title@.subrange(0, i as int));
        if matched < query.len() && title[i] == query[matched] {
            matched += 1;
        }
        i += 1;
    }
    assert(title@.subrange(0, title.len() as int) == title@);
    matched
}

fn fit_from_i128(x: i128) -> (r: i64)
    ensures
        r as int == fit_i64(x as int),
{
    if x < i64::MIN as i128 {
        i64::MIN
    } else if x > i64::MAX as i128 {
        i64::MAX
    } else {
        x as i64
    }
}

/// Scores candidate `app_name` for `query` by the tier ladder of
/// `match_score`.
pub fn score_app_match(matcher: &Matcher, app_name: &str, query: &str) -> (r: Option<i64>)
    ensures
        as_score(r) == match_score(app_name@, query@),
{
    let qv = chars_of(query);
    let nq = normalize_chars(&qv);
    if nq.len() == 0 {
        return None;
    }
    let title = to_lowercase(app_name);
    let tv = chars_of(title.as_str());
    let nt = normalize_chars(&tv);
    let ghost t = lower_of(app_name@);

    if nt.len() == nq.len() && starts_with(&nt, &nq) {
        assert(nt@.subrange(0, nq@.len() as int) =~= nt@);
        return Some(EXACT_SCORE);
    }
    if nt.len() == nq.len() {
        assert(nt@.subrange(0, nq@.len() as int) =~= nt@);
    }
    assert(nt@ != nq@);
    if starts_with(&nt, &nq) {
        let blen = utf8_byte_len(&tv);
        if blen <= (PREFIX_BASE - PREFIX_FLOOR) as u128 {
            return Some(PREFIX_BASE - blen as i64);
        }
        return Some(PREFIX_FLOOR);
    }
    if has_word_start(&tv, &nq) {
        return Some(WORD_START_SCORE);
    }
    let acr = acronym_chars(&tv);
    if starts_with(&acr, &nq) {
        return Some(ACRONYM_SCORE);
    }
    match find(&nt, &nq) {
        Some(index) => {
            proof {
                let k = choose|k: int| is_first_occurrence(nt@, nq@, k);
                assert(is_first_occurrence(nt@, nq@, k));
                if (index as int) < k {
                    assert(!occurs_at(nt@, nq@, index as int));
                } else if k < (index as int) {
                    assert(!occurs_at(nt@, nq@, k));
                }
            }
            let raw: i128 = SUBSTRING_BASE as i128 - 25 * (index as i128);
            if raw >= SUBSTRING_FLOOR as i128 {
                return Some(raw as i64);
            }
            return Some(SUBSTRING_FLOOR);
        },
        None => {},
    }
    let matched = subsequence_coverage(&nt, &nq);
    let sufficient = if nq.len() <= 2 {
        100 * (matched as u128) >= 45 * (nq.len() as u128)
    } else {
        100 * (matched as u128) >= 62 * (nq.len() as u128)
    };
    if !sufficient {
        return None;
    }
    let nt_s = string_of(&nt);
    let nq_s = string_of(&nq);
    match matcher.fuzzy_match(nt_s.as_str(), nq_s.as_str()) {
        Some(s) => {
            let c = if s < 0 {
                0
            } else if s > FUZZY_CAP {
                FUZZY_CAP
            } else {
                s
            };
            Some(FUZZY_BASE + c)
        },
        None => None,
    }
}

} // verus!

verus! {

/// Bonus added to a system command's score when the query asks for it.
pub const INTENT_BONUS: i64 = 220;
/// Penalty taken from a system command's score when the query does not ask
/// for it.
pub const INTENT_PENALTY: i64 = 380;
/// Lowest score at which a system command the query does not ask for is kept.
pub const MIN_SYSTEM_SCORE: i64 = 120;

/// The query's text names the system command `id`.
pub open spec fn signals_intent(query: Seq<char>, id: Seq<char>) -> bool {
    if id == "sys:settings"@ {
        contains(query, "setting"@) || contains(query, "theme"@) || contains(query, "hotkey"@)
            || contains(query, "shortcut"@) || contains(query, "config"@) || contains(
            query,
            "preference"@,
        )
    } else if id == "sys:sleep"@ {
        contains(query, "sleep"@) || contains(query, "suspend"@)
    } else if id == "sys:lock"@ {
        contains(query, "lock"@)
    } else {
        false
    }
}

/// The score of a system command after the intent adjustment, or `None` when
/// it is dropped.
pub open spec fn adjusted_score(base: int, query: Seq<char>, id: Seq<char>) -> Option<int> {
    if signals_intent(query, id) {
        Some(fit_i64(base + INTENT_BONUS))
    } else if fit_i64(base - INTENT_PENALTY) >= MIN_SYSTEM_SCORE {
        Some(fit_i64(base - INTENT_PENALTY))
    } else {
        None
    }
}

/// Whether `query` textually asks for the system command `command_id`.
pub fn query_is_for_system_command(query: &str, command_id: &str) -> (r: bool)
    ensures
        r == signals_intent(query@, command_id@),
{
    if str_eq(command_id, "sys:settings") {
        str_contains(query, "setting") || str_contains(query, "theme") || str_contains(
            query,
            "hotkey",
        ) || str_contains(query, "shortcut") || str_contains(query, "config") || str_contains(
            query,
            "preference",
        )
    } else if str_eq(command_id, "sys:sleep") {
        str_contains(query, "sleep") || str_contains(query, "suspend")
    } else if str_eq(command_id, "sys:lock") {
        str_contains(query, "lock")
    } else {
        false
    }
}

/// Applies the intent adjustment to the raw score `base` of system command
/// `cmd` for the normalised `query`.
pub fn adjusted_system_score(base: i64, cmd: &SearchResult, query: &str) -> (r: Option<i64>)
    ensures
        as_score(r) == adjusted_score(base as int, query@, cmd.id@),
{
    let intent = query_is_for_system_command(query, cmd.id.as_str());
    let score = if intent {
        fit_from_i128(base as i128 + INTENT_BONUS as i128)
    } else {
        fit_from_i128(base as i128 - INTENT_PENALTY as i128)
    };
    if intent || score >= MIN_SYSTEM_SCORE {
        return Some(score);
    }
    None
}

proof fn lemma_first_occurrence_exists(s: Seq<char>, q: Seq<char>, i: int)
    requires
        occurs_at(s, q, i),
    ensures
        exists|k: int| is_first_occurrence(s, q, k),
    decreases i,
{
    if forall|j: int| 0 <= j < i ==> !occurs_at(s, q, j) {
        assert(is_first_occurrence(s, q, i));
    } else {
        let j = choose|j: int| 0 <= j < i && occurs_at(s, q, j);
        lemma_first_occurrence_exists(s, q, j);
    }
}

proof fn lemma_substring_tier_bounded(nt: Seq<char>, nq: Seq<char>)
    requires
        contains(nt, nq),
    ensures
        substring_score(choose|k: int| is_first_occurrence(nt, nq, k)) <= SUBSTRING_BASE,
{
    let i = choose|i: int| occurs_at(nt, nq, i);
    lemma_first_occurrence_exists(nt, nq, i);
    let k = choose|k: int| is_first_occurrence(nt, nq, k);
    assert(k >= 0);
}

/// Every tier but the exact one scores below the exact-match score.
proof fn lemma_inexact_below_exact(name: Seq<char>, query: Seq<char>)
    requires
        normalized(lower_of(name)) != normalized(query),
    ensures
        match_score(name, query) matches Some(s) ==> s < EXACT_SCORE,
{
    let nt = normalized(lower_of(name));
    let nq = normalized(query);
    if contains(nt, nq) {
        lemma_substring_tier_bounded(nt, nq);
    }
}

/// A query whose normal form equals the candidate's scores exactly the
/// exact-match score, and strictly more than any candidate whose normal form
/// differs from the query's.
pub proof fn lemma_exact_match_dominates(name: Seq<char>, other: Seq<char>, query: Seq<char>)
    requires
        normalized(query).len() > 0,
        normalized(lower_of(name)) == normalized(query),
        normalized(lower_of(other)) != normalized(query),
    ensures
        match_score(name, query) == Some(EXACT_SCORE as int),
        match_score(other, query) matches Some(s) ==> s < EXACT_SCORE,
{
    lemma_inexact_below_exact(other, query);
}

/// The normal form of a prefix is a prefix of the normal form.
pub proof fn lemma_normalized_prefix(s: Seq<char>, k: int)
    requires
        0 <= k <= s.len(),
    ensures
        is_prefix(normalized(s.subrange(0, k)), normalized(s)),
    decreases s.len(),
{
    if k == s.len() {
        assert(s.subrange(0, k) == s);
        assert(normalized(s).subrange(0, normalized(s).len() as int) == normalized(s));
    } else {
        let d = s.drop_last();
        assert(d.subrange(0, k) == s.subrange(0, k));
        lemma_normalized_prefix(d, k);
        let a = normalized(s.subrange(0, k));
        let b = normalized(d);
        assert(normalized(s).subrange(0, a.len() as int) == b.subrange(0, a.len() as int));
    }
}

/// When a query's normal form is a prefix of a candidate's, every prefix of
/// the query with a non-empty normal form matches that candidate too.
pub proof fn lemma_query_prefixes_match(name: Seq<char>, query: Seq<char>, k: int)
    requires
        normalized(query).len() > 0,
        is_prefix(normalized(query), normalized(lower_of(name))),
        0 <= k <= query.len(),
        normalized(query.subrange(0, k)).len() > 0,
    ensures
        match_score(name, query.subrange(0, k)) is Some,
{
    lemma_normalized_prefix(query, k);
    let p = normalized(query.subrange(0, k));
    let nq = normalized(query);
    let nt = normalized(lower_of(name));
    assert(nt.subrange(0, p.len() as int) == nq.subrange(0, p.len() as int));
}

/// A candidate matched by prefix outranks one matched only as a substring
/// further in, whatever their lengths.
pub proof fn lemma_prefix_beats_substring(prefixed: Seq<char>, inner: Seq<char>, query: Seq<char>)
    requires
        normalized(query).len() > 0,
        is_prefix(normalized(query), normalized(lower_of(prefixed))),
        !is_prefix(normalized(query), normalized(lower_of(inner))),
        !has_word_starting_with(lower_of(inner), normalized(query)),
        !is_prefix(normalized(query), acronym(lower_of(inner))),
        contains(normalized(lower_of(inner)), normalized(query)),
    ensures
        match_score(prefixed, query) matches Some(a) && match_score(inner, query) matches Some(b)
            && a > b,
{
    let nq = normalized(query);
    let nt = normalized(lower_of(inner));
    if nt == nq {
        assert(nt.subrange(0, nq.len() as int) == nt);
    }
    lemma_substring_tier_bounded(nt, nq);
}

/// The tier that decides the score of `name` for `query`: 1 exact, 2
/// prefix, 3 word start, 4 acronym, 5 substring, 6 fuzzy; 0 for no match.
pub open spec fn match_tier(name: Seq<char>, query: Seq<char>) -> int {
    let nq = normalized(query);
    let title = lower_of(name);
    let nt = normalized(title);
    if nq.len() == 0 {
        0
    } else if nt == nq {
        1
    } else if is_prefix(nq, nt) {
        2
    } else if has_word_starting_with(title, nq) {
        3
    } else if is_prefix(nq, acronym(title)) {
        4
    } else if contains(nt, nq) {
        5
    } else if !coverage_sufficient(nt, nq) || fuzzy_tier(nt, nq) is None {
        0
    } else {
        6
    }
}

proof fn lemma_tier_band(name: Seq<char>, query: Seq<char>)
    ensures
        match_tier(name, query) == 0 <==> match_score(name, query) is None,
        match_score(name, query) matches Some(s) ==> (match_tier(name, query) == 1 ==> s
            == EXACT_SCORE) && (match_tier(name, query) == 2 ==> PREFIX_FLOOR <= s <= PREFIX_BASE)
            && (match_tier(name, query) == 3 ==> s == WORD_START_SCORE) && (match_tier(name, query)
            == 4 ==> s == ACRONYM_SCORE) && (match_tier(name, query) == 5 ==> SUBSTRING_FLOOR <= s
            <= SUBSTRING_BASE) && (match_tier(name, query) == 6 ==> FUZZY_BASE <= s <= FUZZY_BASE
            + FUZZY_CAP),
{
    let nt = normalized(lower_of(name));
    let nq = normalized(query);
    if contains(nt, nq) {
        lemma_substring_tier_bounded(nt, nq);
    }
}

/// Earlier tiers dominate later ones: a candidate decided by an earlier tier
/// of the ladder scores strictly more than one decided by a later tier.
pub proof fn lemma_earlier_tier_dominates(a: Seq<char>, b: Seq<char>, query: Seq<char>)
    requires
        match_score(a, query) is Some,
        match_score(b, query) is Some,
        match_tier(a, query) < match_tier(b, query),
    ensures
        match_score(a, query)->Some_0 > match_score(b, query)->Some_0,
{
    lemma_tier_band(a, query);
    lemma_tier_band(b, query);
}

} // verus!
