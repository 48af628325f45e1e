//! Character-level helpers shared by the scorers and parsers.
//!
//! Unicode classification and case mapping come from std; everything built
//! on top of them (normalisation, searching, splitting) is verified here.
use vstd::prelude::*;

verus! {

/// What `char::is_alphanumeric` answers for a character.
pub uninterp spec fn is_alnum(c: char) -> bool;

/// What `char::to_lowercase` yields for a character.
pub uninterp spec fn lower_of_char(c: char) -> Seq<char>;

/// What `str::to_lowercase` returns for a string.
pub uninterp spec fn lower_of(s: Seq<char>) -> Seq<char>;

/// `c` is an ASCII character.
pub open spec fn is_ascii_char(c: char) -> bool {
    (c as u32) < 0x80
}

/// `c` is an ASCII letter or digit.
pub open spec fn is_ascii_alnum(c: char) -> bool {
    ('0' <= c && c <= '9') || ('A' <= c && c <= 'Z') || ('a' <= c && c <= 'z')
}

/// `c`'s code, with ASCII upper-case letters mapped to lower case.
pub open spec fn ascii_lower_code(c: char) -> u32 {
    if 65 <= (c as u32) && (c as u32) <= 90 {
        (c as u32 + 32) as u32
    } else {
        c as u32
    }
}

/// `c` has the Unicode `White_Space` property, as `char::is_whitespace`
/// tests: tab to carriage return, space, next line, no-break space, ogham
/// space mark, the spaces U+2000 to U+200A, line and paragraph separators,
/// narrow no-break space, medium mathematical space and ideographic space.
pub open spec fn is_space(c: char) -> bool {
    let u = c as u32;
    (0x09 <= u && u <= 0x0d) || u == 0x20 || u == 0x85 || u == 0xa0 || u == 0x1680 || (0x2000 <= u
        && u <= 0x200a) || u == 0x2028 || u == 0x2029 || u == 0x202f || u == 0x205f || u == 0x3000
}

/// Relies on `char::is_alphanumeric`: the answer depends on the character
/// alone; among ASCII characters exactly the letters and digits qualify.
#[verifier::external_body]
pub(crate) fn char_is_alphanumeric(c: char) -> (r: bool)
    ensures
        r == is_alnum(c),
        is_ascii_char(c) ==> (r == is_ascii_alnum(c)),
{
    c.is_alphanumeric()
}

/// Whether `c` is whitespace, as `char::is_whitespace` decides.
pub fn char_is_whitespace(c: char) -> (r: bool)
    ensures
        r == is_space(c),
{
    let u = c as u32;
    (0x09 <= u && u <= 0x0d) || u == 0x20 || u == 0x85 || u == 0xa0 || u == 0x1680 || (0x2000 <= u
        && u <= 0x200a) || u == 0x2028 || u == 0x2029 || u == 0x202f || u == 0x205f || u == 0x3000
}

/// Relies on `char::to_lowercase`: the lowercase mapping of one character;
/// an ASCII character maps to its ASCII lowercase.
#[verifier::external_body]
pub(crate) fn char_to_lowercase(c: char) -> (r: String)
    ensures
        r@ == lower_of_char(c),
        is_ascii_char(c) ==> (r@.len() == 1 && r@[0] as u32 == ascii_lower_code(c)),
{
    c.to_lowercase().collect()
}

/// Relies on `str::to_lowercase`: the lowercase form of a whole string; an
/// ASCII string keeps its length and lowercases its letters.
#[verifier::external_body]
pub(crate) fn to_lowercase(s: &str) -> (r: String)
    ensures
        r@ == lower_of(s@),
        s@.len() == 0 ==> r@.len() == 0,
        (forall|i: int| 0 <= i < s@.len() ==> is_ascii_char(#[trigger] s@[i])) ==> (r@.len()
            == s@.len() && forall|i: int|
            0 <= i < s@.len() ==> (#[trigger] r@[i]) as u32 == ascii_lower_code(s@[i])),
{
    s.to_lowercase()
}

/// Relies on `String::push`: appends one character.
#[verifier::external_body]
pub(crate) fn push_char(s: &mut String, c: char)
    ensures
        final(s)@ == old(s)@.push(c),
{
    s.push(c)
}

/// `q` occurs in `s` starting at character index `i`.
pub open spec fn occurs_at(s: Seq<char>, q: Seq<char>, i: int) -> bool {
    0 <= i && i + q.len() <= s.len() && s.subrange(i, i + q.len()) == q
}

/// `p` is a prefix of `s`.
pub open spec fn is_prefix(p: Seq<char>, s: Seq<char>) -> bool {
    occurs_at(s, p, 0)
}

/// `q` occurs somewhere in `s`.
pub open spec fn contains(s: Seq<char>, q: Seq<char>) -> bool {
    exists|i: int| occurs_at(s, q, i)
}

/// `i` is the first index at which `q` occurs in `s`.
pub open spec fn is_first_occurrence(s: Seq<char>, q: Seq<char>, i: int) -> bool {
    occurs_at(s, q, i) && forall|j: int| 0 <= j < i ==> !occurs_at(s, q, j)
}

/// Keeps the alphanumeric characters of `s`, each replaced by its lowercase
/// mapping.
pub open spec fn normalized(s: Seq<char>) -> Seq<char>
    decreases s.len(),
{
    if s.len() == 0 {
        Seq::empty()
    } else if is_alnum(s.last()) {
        normalized(s.drop_last()) + lower_of_char(s.last())
    } else {
        normalized(s.drop_last())
    }
}

/// Number of bytes of the UTF-8 encoding of `c`.
pub open spec fn utf8_width(c: char) -> nat {
    if (c as u32) < 0x80 {
        1
    } else if (c as u32) < 0x800 {
        2
    } else if (c as u32) < 0x10000 {
        3
    } else {
        4
    }
}

/// Number of bytes of the UTF-8 encoding of `s`.
pub open spec fn utf8_len(s: Seq<char>) -> nat
    decreases s.len(),
{
    if s.len() == 0 {
        0
    } else {
        utf8_len(s.drop_last()) + utf8_width(s.last())
    }
}

/// Number of bytes of the UTF-8 encoding of the characters in `v`.
pub fn utf8_byte_len(v: &Vec<char>) -> (r: u128)
    ensures
        r == utf8_len(v@),
        r <= 4 * v@.len(),
{
    let mut r: u128 = 0;
    let mut i: usize = 0;
    while i < v.len()
        invariant
            i <= v.len(),
            r == utf8_len(v@.subrange(0, i as int)),
            r <= 4 * i,
        decreases v.len() - i,
    {
        assert(v@.subrange(0, i + 1).drop_last() == v@.subrange(0, i as int));
        let code = v[i] as u32;
        let w: u128 = if code < 0x80 {
            1
        } else if code < 0x800 {
            2
        } else if code < 0x10000 {
            3
        } else {
            4
        };
        r = r + w;
        i += 1;
    }
    assert(v@.subrange(0, v.len() as int) == v@);
    r
}

/// `s` without its leading whitespace.
pub open spec fn trim_start(s: Seq<char>) -> Seq<char>
    decreases s.len(),
{
    if s.len() > 0 && is_space(s[0]) {
        trim_start(s.drop_first())
    } else {
        s
    }
}

/// `s` without its trailing whitespace.
pub open spec fn trim_end(s: Seq<char>) -> Seq<char>
    decreases s.len(),
{
    if s.len() > 0 && is_space(s.last()) {
        trim_end(s.drop_last())
    } else {
        s
    }
}

/// `s` without leading and trailing whitespace.
pub open spec fn trimmed(s: Seq<char>) -> Seq<char> {
    trim_end(trim_start(s))
}

/// `s` without leading and trailing whitespace.
pub fn trim(s: &str) -> (r: String)
    ensures
        r@ == trimmed(s@),
{
    let v = chars_of(s);
    let mut a: usize = 0;
    assert(s@.subrange(0, s@.len() as int) == s@);
    while a < v.len() && char_is_whitespace(v[a])
        invariant
            a <= v.len(),
            v@ == s@,
            trim_start(s@) == trim_start(s@.subrange(a as int, s@.len() as int)),
        decreases v.len() - a,
    {
        let ghost cur = s@.subrange(a as int, s@.len() as int);
        assert(cur.drop_first() == s@.subrange(a + 1, s@.len() as int));
        a += 1;
    }
    assert(trim_start(s@) == s@.subrange(a as int, s@.len() as int));
    let mut b: usize = v.len();
    while b > a && char_is_whitespace(v[b - 1])
        invariant
            a <= b <= v.len(),
            v@ == s@,
            trimmed(s@) == trim_end(s@.subrange(a as int, b as int)),
        decreases b,
    {
        let ghost cur = s@.subrange(a as int, b as int);
        assert(cur.drop_last() == s@.subrange(a as int, b - 1));
        b -= 1;
    }
    let mut out: Vec<char> = Vec::new();
    let mut k = a;
    while k < b
        invariant
            a <= k <= b <= v.len(),
            out@ == v@.subrange(a as int, k as int),
        decreases b - k,
    {
        out.push(v[k]);
        k += 1;
    }
    string_of(&out)
}

/// The characters of a string, in order.
pub fn chars_of(s: &str) -> (r: Vec<char>)
    ensures
        r@ == s@,
{
    let n = s.unicode_len();
    let mut r: Vec<char> = Vec::new();
    let mut i: usize = 0;
    while i < n
        invariant
            n == s@.len(),
            i <= n,
            r@ == s@.subrange(0, i as int),
        decreases n - i,
    {
        r.push(s.get_char(i));
        i += 1;
    }
    assert(r@ == s@);
    r
}

/// A string holding exactly the given characters.
pub fn string_of(v: &Vec<char>) -> (r: String)
    ensures
        r@ == v@,
{
    let mut r = String::new();
    let mut i: usize = 0;
    while i < v.len()
        invariant
            i <= v.len(),
            r@ == v@.subrange(0, i as int),
        decreases v.len() - i,
    {
        push_char(&mut r, v[i]);
        i += 1;
    }
    assert(r@ == v@);
    r
}

/// Appends every character of `s` to `out`.
pub fn append_chars(out: &mut Vec<char>, s: &str)
    ensures
        final(out)@ == old(out)@ + s@,
{
    let v = chars_of(s);
    let mut i: usize = 0;
    while i < v.len()
        invariant
            i <= v.len(),
            v@ == s@,
            out@ == old(out)@ + s@.subrange(0, i as int),
        decreases v.len() - i,
    {
        out.push(v[i]);
        i += 1;
    }
    assert(s@.subrange(0, v.len() as int) == s@);
}

/// Whether `q` occurs in `s` at index `i`.
pub fn matches_at(s: &Vec<char>, q: &Vec<char>, i: usize) -> (r: bool)
    ensures
        r == occurs_at(s@, q@, i as int),
{
    if i > s.len() || q.len() > s.len() - i {
        return false;
    }
    let mut j: usize = 0;
    while j < q.len()
        invariant
            i + q.len() <= s.len(),
            j <= q.len(),
            forall|k: int| 0 <= k < j ==> s@[i + k] == q@[k],
        decreases q.len() - j,
    {
        if s[i + j] != q[j] {
            assert(s@.subrange(i as int, i + q.len())[j as int] != q@[j as int]);
            return false;
        }
        j += 1;
    }
    assert(s@.subrange(i as int, i + q.len()) =~= q@);
    true
}

/// The first index at which `q` occurs in `s`, if any.
pub fn find(s: &Vec<char>, q: &Vec<char>) -> (r: Option<usize>)
    ensures
        r matches Some(i) ==> is_first_occurrence(s@, q@, i as int),
        r is None ==> !contains(s@, q@),
{
    let mut i: usize = 0;
    loop
        invariant
            i <= s.len(),
            forall|j: int| 0 <= j < i ==> !occurs_at(s@, q@, j),
        decreases s.len() - i,
    {
        if matches_at(s, q, i) {
            return Some(i);
        }
        if i == s.len() {
            assert forall|j: int| !occurs_at(s@, q@, j) by {
                if 0 <= j && j <= i {
                }
            }
            return None;
        }
        i += 1;
    }
}

/// Whether `q` occurs anywhere in `s`.
pub fn contains_chars(s: &Vec<char>, q: &Vec<char>) -> (r: bool)
    ensures
        r == contains(s@, q@),
{
    match find(s, q) {
        Some(_) => true,
        None => false,
    }
}

/// Whether `p` is a prefix of `s`.
pub fn starts_with(s: &Vec<char>, p: &Vec<char>) -> (r: bool)
    ensures
        r == is_prefix(p@, s@),
{
    matches_at(s, p, 0)
}

/// Whether the text of `s` contains the text of `q`.
pub fn str_contains(s: &str, q: &str) -> (r: bool)
    ensures
        r == contains(s@, q@),
{
    let sv = chars_of(s);
    let qv = chars_of(q);
    contains_chars(&sv, &qv)
}

/// Whether two strings hold the same text.
pub fn str_eq(a: &str, b: &str) -> (r: bool)
    ensures
        r == (a@ == b@),
{
    let av = chars_of(a);
    let bv = chars_of(b);
    if av.len() != bv.len() {
        return false;
    }
    let r = matches_at(&av, &bv, 0);
    assert(av@.subrange(0, bv@.len() as int) =~= av@);
    r
}

/// Every character of `s` is ASCII.
pub open spec fn all_ascii(s: Seq<char>) -> bool {
    forall|i: int| 0 <= i < s.len() ==> is_ascii_char(#[trigger] s[i])
}

/// The codes of the characters of `s`.
pub open spec fn codes(s: Seq<char>) -> Seq<u32> {
    s.map_values(|c: char| c as u32)
}

/// The codes of the ASCII letters and digits of `s`, in order, with
/// upper-case letters mapped to lower case.
pub open spec fn ascii_normalized_codes(s: Seq<char>) -> Seq<u32>
    decreases s.len(),
{
    if s.len() == 0 {
        Seq::empty()
    } else if is_ascii_alnum(s.last()) {
        ascii_normalized_codes(s.drop_last()).push(ascii_lower_code(s.last()))
    } else {
        ascii_normalized_codes(s.drop_last())
    }
}

/// The normalised form of `s`: its alphanumeric characters, lowercased. For
/// ASCII input these are its letters and digits, in order, in lower case.
pub fn normalize_chars(s: &Vec<char>) -> (r: Vec<char>)
    ensures
        r@ == normalized(s@),
        all_ascii(s@) ==> codes(r@) == ascii_normalized_codes(s@),
{
    let mut r: Vec<char> = Vec::new();
    let mut i: usize = 0;
    while i < s.len()
        invariant
            i <= s.len(),
            r@ == normalized(s@.subrange(0, i as int)),
            all_ascii(s@.subrange(0, i as int)) ==> codes(r@) == ascii_normalized_codes(
                s@.subrange(0, i as int),
            ),
        decreases s.len() - i,
    {
        let ghost before = s@.subrange(0, i as int);
        let ghost next = s@.subrange(0, i + 1);
        let ghost r0 = r@;
        let c = s[i];
        assert(next.drop_last() == before);
        assert(next.last() == c);
        proof {
            if all_ascii(next) {
                assert forall|k: int| 0 <= k < before.len() implies is_ascii_char(
                    #[trigger] before[k],
                ) by {
                    assert(before[k] == next[k]);
                }
                assert(is_ascii_char(next[i as int]));
            }
        }
        if char_is_alphanumeric(c) {
            let low = char_to_lowercase(c);
            append_chars(&mut r, low.as_str());
            proof {
                if all_ascii(next) {
                    assert(codes(r@) =~= codes(r0).push(ascii_lower_code(c)));
                }
            }
        } else {
            proof {
                if all_ascii(next) {
                    assert(codes(r@) =~= codes(r0));
                }
            }
        }
        i += 1;
    }
    assert(s@.subrange(0, s.len() as int) == s@);
    r
}

} // verus!

verus! {

/// The first index at which `q` occurs in `s`, if any.
pub open spec fn first_index(s: Seq<char>, q: Seq<char>) -> Option<int> {
    if contains(s, q) {
        Some(choose|k: int| is_first_occurrence(s, q, k))
    } else {
        None
    }
}

/// The first index at which `q` occurs in `s`.
pub fn index_of(s: &Vec<char>, q: &Vec<char>) -> (r: Option<usize>)
    ensures
        match r {
            Some(i) => first_index(s@, q@) == Some(i as int) && i + q@.len() <= s@.len(),
            None => first_index(s@, q@) is None,
        },
{
    let r = find(s, q);
    match r {
        Some(i) => {
            proof {
                let k = choose|k: int| is_first_occurrence(s@, q@, k);
                assert(is_first_occurrence(s@, q@, k));
                if (i as int) < k {
                    assert(!occurs_at(s@, q@, i as int));
                } else if k < (i as int) {
                    assert(!occurs_at(s@, q@, k));
                }
            }
        },
        None => {},
    }
    r
}

/// The pieces of `s` between newline characters; there is always at least
/// one, the last being what follows the last newline.
pub open spec fn newline_pieces(s: Seq<char>) -> Seq<Seq<char>>
    decreases s.len(),
{
    if s.len() == 0 {
        seq![Seq::empty()]
    } else {
        let p = newline_pieces(s.drop_last());
        if s.last() == '\n' {
            p.push(Seq::empty())
        } else {
            p.update(p.len() - 1, p.last().push(s.last()))
        }
    }
}

/// `l` without one carriage return at its end.
pub open spec fn without_cr(l: Seq<char>) -> Seq<char> {
    if l.len() > 0 && l.last() == '\r' {
        l.drop_last()
    } else {
        l
    }
}

/// The lines of `s` as `str::lines` yields them: split at `\n` or `\r\n`,
/// with no empty line after a final line ending.
pub open spec fn lines_of(s: Seq<char>) -> Seq<Seq<char>> {
    let p = newline_pieces(s);
    let ended = p.drop_last().map_values(|l: Seq<char>| without_cr(l));
    if p.last().len() == 0 {
        ended
    } else {
        ended.push(p.last())
    }
}

proof fn lemma_pieces_nonempty(s: Seq<char>)
    ensures
        newline_pieces(s).len() >= 1,
    decreases s.len(),
{
    if s.len() > 0 {
        lemma_pieces_nonempty(s.drop_last());
    }
}

/// The character sequences held by `v`.
pub open spec fn line_views(v: Seq<Vec<char>>) -> Seq<Seq<char>> {
    v.map_values(|l: Vec<char>| l@)
}

/// The lines of `s`, as `str::lines` yields them.
pub fn lines(s: &str) -> (r: Vec<Vec<char>>)
    ensures
        line_views(r@) == lines_of(s@),
{
    let v = chars_of(s);
    let mut done: Vec<Vec<char>> = Vec::new();
    let mut cur: Vec<char> = Vec::new();
    let mut i: usize = 0;
    assert(done@.map_values(|l: Vec<char>| l@) =~= newline_pieces(s@.subrange(0, 0)).drop_last().map_values(
        |l: Seq<char>| without_cr(l),
    ));
    while i < v.len()
        invariant
            i <= v.len(),
            v@ == s@,
            newline_pieces(s@.subrange(0, i as int)).len() >= 1,
            cur@ == newline_pieces(s@.subrange(0, i as int)).last(),
            done@.map_values(|l: Vec<char>| l@) == newline_pieces(
                s@.subrange(0, i as int),
            ).drop_last().map_values(|l: Seq<char>| without_cr(l)),
        decreases v.len() - i,
    {
        let ghost pre = s@.subrange(0, i as int);
        let ghost next = s@.subrange(0, i + 1);
        assert(next.drop_last() == pre);
        let ghost p = newline_pieces(pre);
        let c = v[i];
        if c == '\n' {
            let mut line = cur;
            let n = line.len();
            if n > 0 && line[n - 1] == '\r' {
                line.pop();
            }
            assert(line@ == without_cr(p.last()));
            let ghost before = done@;
            done.push(line);
            assert(newline_pieces(next).drop_last() =~= p);
            assert(p.map_values(|l: Seq<char>| without_cr(l)) =~= p.drop_last().map_values(
                |l: Seq<char>| without_cr(l),
            ).push(without_cr(p.last())));
            assert(done@.map_values(|l: Vec<char>| l@) =~= newline_pieces(next).drop_last().map_values(
                |l: Seq<char>| without_cr(l),
            ));
            cur = Vec::new();
            assert(cur@ =~= newline_pieces(next).last());
        } else {
            cur.push(c);
            assert(newline_pieces(next).drop_last() =~= p.drop_last());
            assert(cur@ =~= newline_pieces(next).last());
        }
        proof {
            lemma_pieces_nonempty(next);
        }
        i += 1;
    }
    assert(s@.subrange(0, v.len() as int) == s@);
    if cur.len() > 0 {
        let ghost before = done@;
        done.push(cur);
        assert(done@.map_values(|l: Vec<char>| l@) =~= before.map_values(|l: Vec<char>| l@).push(
            newline_pieces(s@).last(),
        ));
    }
    done
}

/// `s` without leading and trailing whitespace, as characters.
pub fn trim_chars(s: &Vec<char>, from: usize, to: usize) -> (r: Vec<char>)
    requires
        from <= to <= s.len(),
    ensures
        r@ == trimmed(s@.subrange(from as int, to as int)),
{
    let t = string_of_range(s, from, to);
    let tr = trim(t.as_str());
    chars_of(tr.as_str())
}

/// The characters of `v` in `[from, to)` as a string.
pub fn string_of_range(v: &Vec<char>, from: usize, to: usize) -> (r: String)
    requires
        from <= to <= v.len(),
    ensures
        r@ == v@.subrange(from as int, to as int),
{
    let mut part: Vec<char> = Vec::new();
    let mut k = from;
    while k < to
        invariant
            from <= k <= to <= v.len(),
            part@ == v@.subrange(from as int, k as int),
        decreases to - k,
    {
        part.push(v[k]);
        k += 1;
    }
    string_of(&part)
}

} // verus!
