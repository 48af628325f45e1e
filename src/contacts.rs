//! Contacts as the host's address book exports them: one person per line,
//! name, e-mail and phone separated by tabs.
use vstd::prelude::*;
use crate::text::{trimmed, lines_of, lines, trim_chars};

verus! {

/// A person of the address book.
pub struct ContactEntry {
    pub name: String,
    pub email: Option<String>,
    pub phone: Option<String>,
}

/// The view of a contact.
pub struct ContactView {
    pub name: Seq<char>,
    pub email: Option<Seq<char>>,
    pub phone: Option<Seq<char>>,
}

impl View for ContactEntry {
    type V = ContactView;

    open spec fn view(&self) -> ContactView {
        ContactView {
            name: self.name@,
            email: match self.email {
                Some(e) => Some(e@),
                None => None,
            },
            phone: match self.phone {
                Some(p) => Some(p@),
                None => None,
            },
        }
    }
}

/// The index of the first tab of `l` at or after `from`, or the length of
/// `l` when there is none.
pub open spec fn next_tab(l: Seq<char>, from: int) -> int
    decreases l.len() - from,
{
    if from < 0 || from >= l.len() {
        l.len() as int
    } else if l[from] == '\t' {
        from
    } else {
        next_tab(l, from + 1)
    }
}

/// A trimmed field, or `None` when it is empty.
pub open spec fn field(s: Seq<char>) -> Option<Seq<char>> {
    if trimmed(s).len() == 0 {
        None
    } else {
        Some(trimmed(s))
    }
}

/// The contact on line `l`: the text up to the first tab is the name, the
/// next field the e-mail, everything after the second tab the phone. A line
/// with a blank name holds no contact.
pub open spec fn contact_of(l: Seq<char>) -> Option<ContactView> {
    let a = next_tab(l, 0);
    let b = next_tab(l, a + 1);
    let name = trimmed(l.subrange(0, a));
    if name.len() == 0 {
        None
    } else {
        Some(
            ContactView {
                name,
                email: if a < l.len() {
                    field(l.subrange(a + 1, b))
                } else {
                    None
                },
                phone: if a < l.len() && b < l.len() {
                    field(l.subrange(b + 1, l.len() as int))
                } else {
                    None
                },
            },
        )
    }
}

/// The contacts on `ls`, in order.
pub open spec fn contacts_of(ls: Seq<Seq<char>>) -> Seq<ContactView>
    decreases ls.len(),
{
    if ls.len() == 0 {
        Seq::empty()
    } else {
        match contact_of(ls.last()) {
            Some(c) => contacts_of(ls.drop_last()).push(c),
            None => contacts_of(ls.drop_last()),
        }
    }
}

/// The views of a sequence of contacts.
pub open spec fn contact_views(v: Seq<ContactEntry>) -> Seq<ContactView> {
    v.map_values(|c: ContactEntry| c@)
}

proof fn lemma_next_tab_bounds(l: Seq<char>, from: int)
    requires
        0 <= from,
    ensures
        from <= next_tab(l, from) <= l.len() || (from > l.len() && next_tab(l, from) == l.len()),
        next_tab(l, from) < l.len() ==> l[next_tab(l, from)] == '\t',
    decreases l.len() - from,
{
    if from < l.len() && l[from] != '\t' {
        lemma_next_tab_bounds(l, from + 1);
    }
}

fn find_tab(l: &Vec<char>, from: usize) -> (r: usize)
    requires
        from <= l.len(),
    ensures
        r == next_tab(l@, from as int),
        from <= r <= l.len(),
{
    let mut i = from;
    while i < l.len() && l[i] != '\t'
        invariant
            from <= i <= l.len(),
            next_tab(l@, from as int) == next_tab(l@, i as int),
        decreases l.len() - i,
    {
        i += 1;
    }
    i
}

fn field_of(l: &Vec<char>, from: usize, to: usize) -> (r: Option<String>)
    requires
        from <= to <= l.len(),
    ensures
        match r {
            Some(s) => field(l@.subrange(from as int, to as int)) == Some(s@),
            None => field(l@.subrange(from as int, to as int)) is None,
        },
{
    let t = trim_chars(l, from, to);
    if t.len() == 0 {
        None
    } else {
        Some(crate::text::string_of(&t))
    }
}

fn contact_from_line(l: &Vec<char>) -> (r: Option<ContactEntry>)
    ensures
        match r {
            Some(c) => contact_of(l@) == Some(c@),
            None => contact_of(l@) is None,
        },
{
    let a = find_tab(l, 0);
    let name = trim_chars(l, 0, a);
    if name.len() == 0 {
        return None;
    }
    let mut email: Option<String> = None;
    let mut phone: Option<String> = None;
    if a < l.len() {
        let b = find_tab(l, a + 1);
        email = field_of(l, a + 1, b);
        if b < l.len() {
            phone = field_of(l, b + 1, l.len());
        }
    } else {
        proof {
            lemma_next_tab_bounds(l@, a + 1);
        }
    }
    Some(ContactEntry { name: crate::text::string_of(&name), email, phone })
}

/// The contacts of an address-book export, one per line with tab-separated
/// name, e-mail and phone; lines with a blank name are skipped.
pub fn parse_contacts_output(raw: &str) -> (r: Vec<ContactEntry>)
    ensures
        contact_views(r@) == contacts_of(lines_of(raw@)),
{
    let ls = lines(raw);
    let ghost lv = crate::text::line_views(ls@);
    let mut out: Vec<ContactEntry> = Vec::new();
    let mut i: usize = 0;
    assert(contact_views(out@) =~= contacts_of(lv.subrange(0, 0)));
    while i < ls.len()
        invariant
            i <= ls.len(),
            lv == crate::text::line_views(ls@),
            contact_views(out@) == contacts_of(lv.subrange(0, i as int)),
        decreases ls.len() - i,
    {
        assert(lv.subrange(0, i + 1).drop_last() == lv.subrange(0, i as int));
        assert(lv.subrange(0, i + 1).last() == ls@[i as int]@);
        match contact_from_line(&ls[i]) {
            Some(c) => {
                let ghost before = out@;
                out.push(c);
                assert(contact_views(out@) =~= contact_views(before).push(c@));
            },
            None => {},
        }
        i += 1;
    }
    assert(lv.subrange(0, ls.len() as int) == lv);
    out
}

} // verus!
