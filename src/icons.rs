//! Application icons: the cache of icons already looked up, and the pieces
//! of icon extraction that are plain text work.
use vstd::prelude::*;
use base64::Engine;
use crate::text::{trimmed, trim, chars_of, string_of, first_index, index_of, append_chars};

verus! {

/// What the standard base64 engine produces for `bytes`.
pub uninterp spec fn base64_of(bytes: Seq<u8>) -> Seq<char>;

/// Relies on `base64::engine::general_purpose::STANDARD.encode`: the padded
/// standard base64 text of `bytes`.
#[verifier::external_body]
fn base64_encode(bytes: &[u8]) -> (r: String)
    ensures
        r@ == base64_of(bytes@),
{
    base64::engine::general_purpose::STANDARD.encode(bytes)
}

/// The prefix of a PNG data URI.
pub open spec fn png_prefix() -> Seq<char> {
    "data:image/png;base64,"@
}

/// The data URI of PNG image `bytes`, or `None` for no bytes.
pub fn png_data_uri(bytes: &[u8]) -> (r: Option<String>)
    ensures
        bytes@.len() == 0 ==> r is None,
        bytes@.len() > 0 ==> (r matches Some(u) && u@ == png_prefix() + base64_of(bytes@)),
{
    if bytes.len() == 0 {
        return None;
    }
    let encoded = base64_encode(bytes);
    let mut uri = String::from_str("data:image/png;base64,");
    uri.append(encoded.as_str());
    Some(uri)
}

/// The data URI of a PNG image whose base64 text a tool printed as
/// `output`, or `None` when it printed nothing but whitespace.
pub fn data_uri_from_base64(output: &str) -> (r: Option<String>)
    ensures
        trimmed(output@).len() == 0 ==> r is None,
        trimmed(output@).len() > 0 ==> (r matches Some(u) && u@ == png_prefix() + trimmed(output@)),
{
    let t = trim(output);
    if t.as_str().unicode_len() == 0 {
        return None;
    }
    let mut uri = String::from_str("data:image/png;base64,");
    uri.append(t.as_str());
    Some(uri)
}

/// The value of `key` in plist text `content`: the trimmed text of the first
/// `<string>` element after the key's first `<key>` element, when not blank.
pub open spec fn plist_value(content: Seq<char>, key: Seq<char>) -> Option<Seq<char>> {
    let marker = "<key>"@ + key + "</key>"@;
    match first_index(content, marker) {
        None => None,
        Some(start) => {
            let rest = content.subrange(start + marker.len(), content.len() as int);
            match first_index(rest, "<string>"@) {
                None => None,
                Some(s) => {
                    let tail = rest.subrange(s + "<string>"@.len(), rest.len() as int);
                    match first_index(tail, "</string>"@) {
                        None => None,
                        Some(e) => if trimmed(tail.subrange(0, e)).len() > 0 {
                            Some(trimmed(tail.subrange(0, e)))
                        } else {
                            None
                        },
                    }
                },
            }
        },
    }
}

/// The icon name an application's plist gives: its icon file, else its
/// icon name.
pub open spec fn plist_icon_name(content: Seq<char>) -> Option<Seq<char>> {
    match plist_value(content, "CFBundleIconFile"@) {
        Some(v) => Some(v),
        None => plist_value(content, "CFBundleIconName"@),
    }
}

fn subrange_chars(v: &Vec<char>, from: usize, to: usize) -> (r: Vec<char>)
    requires
        from <= to <= v.len(),
    ensures
        r@ == v@.subrange(from as int, to as int),
{
    let mut r: Vec<char> = Vec::new();
    let mut k = from;
    while k < to
        invariant
            from <= k <= to <= v.len(),
            r@ == v@.subrange(from as int, k as int),
        decreases to - k,
    {
        r.push(v[k]);
        k += 1;
    }
    r
}

fn plist_value_exec(content: &Vec<char>, key: &str) -> (r: Option<String>)
    ensures
        match r {
            Some(v) => plist_value(content@, key@) == Some(v@),
            None => plist_value(content@, key@) is None,
        },
{
    let mut marker: Vec<char> = Vec::new();
    append_chars(&mut marker, "<key>");
    append_chars(&mut marker, key);
    append_chars(&mut marker, "</key>");
    let open_tag = chars_of("<string>");
    let close_tag = chars_of("</string>");
    let found = index_of(content, &marker);
    let start = match found {
        Some(i) => i,
        None => return None,
    };
    let mlen = marker.len();
    let clen = content.len();
    assert(start + mlen <= clen);
    let rest = subrange_chars(content, start + mlen, clen);
    let s = match index_of(&rest, &open_tag) {
        Some(i) => i,
        None => return None,
    };
    let tail = subrange_chars(&rest, s + open_tag.len(), rest.len());
    let e = match index_of(&tail, &close_tag) {
        Some(i) => i,
        None => return None,
    };
    let value = crate::text::trim_chars(&tail, 0, e);
    if value.len() == 0 {
        return None;
    }
    Some(string_of(&value))
}

/// The icon name in the text of an application's plist, if it gives one.
pub fn parse_plist_icon_name(content: &str) -> (r: Option<String>)
    ensures
        match r {
            Some(v) => plist_icon_name(content@) == Some(v@),
            None => plist_icon_name(content@) is None,
        },
{
    let c = chars_of(content);
    match plist_value_exec(&c, "CFBundleIconFile") {
        Some(v) => Some(v),
        None => plist_value_exec(&c, "CFBundleIconName"),
    }
}

} // verus!

verus! {

/// A remembered icon lookup: the application path and the icon found for
/// it, or `None` when it has none.
pub struct IconEntry {
    pub path: String,
    pub icon: Option<String>,
}

/// The icon recorded last for `path` among `entries`: `None` if it was
/// never recorded, `Some(icon)` otherwise.
pub open spec fn recorded(entries: Seq<(Seq<char>, Option<Seq<char>>)>, path: Seq<char>) -> Option<Option<Seq<char>>>
    decreases entries.len(),
{
    if entries.len() == 0 {
        None
    } else if entries.last().0 == path {
        Some(entries.last().1)
    } else {
        recorded(entries.drop_last(), path)
    }
}

/// The view of an optional string.
pub open spec fn opt_view(s: Option<String>) -> Option<Seq<char>> {
    match s {
        Some(v) => Some(v@),
        None => None,
    }
}

/// The icons already looked up, by application path.
pub struct IconCache {
    entries: Vec<IconEntry>,
}

/// What to do for an icon request.
pub enum IconStep {
    /// The answer is known.
    Done(Option<String>),
    /// The icon must be extracted from the application, then recorded.
    Extract,
}

impl IconCache {
    /// The recorded lookups, oldest first.
    pub closed spec fn records(&self) -> Seq<(Seq<char>, Option<Seq<char>>)> {
        self.entries@.map_values(|e: IconEntry| (e.path@, opt_view(e.icon)))
    }

    /// An empty cache.
    pub fn new() -> (r: IconCache)
        ensures
            forall|p: Seq<char>| recorded(r.records(), p) is None,
    {
        let r = IconCache { entries: Vec::new() };
        assert(r.records() =~= Seq::<(Seq<char>, Option<Seq<char>>)>::empty());
        r
    }

    /// The icon recorded for `path`, if it was looked up before.
    pub fn lookup(&self, path: &str) -> (r: Option<Option<String>>)
        ensures
            match r {
                Some(icon) => recorded(self.records(), path@) == Some(opt_view(icon)),
                None => recorded(self.records(), path@) is None,
            },
    {
        let mut i = self.entries.len();
        assert(self.records().subrange(0, i as int) == self.records());
        while i > 0
            invariant
                i <= self.entries.len(),
                recorded(self.records(), path@) == recorded(self.records().subrange(0, i as int), path@),
            decreases i,
        {
            let ghost pre = self.records().subrange(0, i as int);
            assert(pre.drop_last() == self.records().subrange(0, i - 1));
            let e = &self.entries[i - 1];
            if crate::text::str_eq(e.path.as_str(), path) {
                return Some(
                    match &e.icon {
                        Some(s) => Some(s.clone()),
                        None => None,
                    },
                );
            }
            i -= 1;
        }
        None
    }

    /// Records `icon` as the icon of `path`.
    pub fn remember_icon(&mut self, path: &str, icon: Option<String>)
        ensures
            forall|p: Seq<char>|
                recorded(final(self).records(), p) == if p == path@ {
                    Some(opt_view(icon))
                } else {
                    recorded(old(self).records(), p)
                },
    {
        let ghost before = self.records();
        let e = IconEntry { path: String::from_str(path), icon };
        self.entries.push(e);
        assert(self.records() =~= before.push((path@, opt_view(icon))));
        assert forall|p: Seq<char>|
            recorded(self.records(), p) == if p == path@ {
                Some(opt_view(icon))
            } else {
                recorded(before, p)
            } by {
            assert(self.records().drop_last() == before);
        }
    }
}

/// The first step of an icon request for the application at `path`: a
/// recorded answer is returned as it is; an application that does not exist
/// has no icon, which is recorded; otherwise the icon must be extracted.
pub fn get_app_icon(cache: &mut IconCache, path: &str, exists: bool) -> (r: IconStep)
    ensures
        recorded(old(cache).records(), path@) matches Some(known) ==> (r matches IconStep::Done(i)
            && opt_view(i) == known && final(cache).records() == old(cache).records()),
        recorded(old(cache).records(), path@) is None && !exists ==> (r matches IconStep::Done(i)
            && i is None && forall|p: Seq<char>|
            recorded(final(cache).records(), p) == if p == path@ {
                Some(None)
            } else {
                recorded(old(cache).records(), p)
            }),
        recorded(old(cache).records(), path@) is None && exists ==> (r is Extract
            && final(cache).records() == old(cache).records()),
{
    match cache.lookup(path) {
        Some(icon) => IconStep::Done(icon),
        None => {
            if !exists {
                cache.remember_icon(path, None);
                IconStep::Done(None)
            } else {
                IconStep::Extract
            }
        },
    }
}

} // verus!
