use vstd::prelude::*;
use vstd::utf8::*;

use crate::text::{eq_ignore_case, same_name, utf8_string};
use crate::util::{copy_range, find_from, first_occurrence, lemma_first_from_props, lines_view};

verus! {

/// A header field as the model sees it: its name and its value.
pub type Field = (Seq<char>, Seq<char>);

pub open spec fn has_name(m: Seq<Field>, k: Seq<char>) -> bool {
    exists|i: int| 0 <= i < m.len() && same_name(#[trigger] m[i].0, k)
}

/// The position of the field named `k` (meaningful when there is one).
pub open spec fn name_index(m: Seq<Field>, k: Seq<char>) -> int {
    choose|i: int| 0 <= i < m.len() && same_name(#[trigger] m[i].0, k)
}

/// No two fields share a name, letter case aside.
pub open spec fn names_unique(m: Seq<Field>) -> bool {
    forall|i: int, j: int|
        0 <= i < m.len() && 0 <= j < m.len() && i != j ==> !same_name(
            #[trigger] m[i].0,
            #[trigger] m[j].0,
        )
}

/// The fields after inserting `k: v`: an existing field of that name keeps its
/// place and its spelling and takes the new value; otherwise the field is appended.
pub open spec fn inserted(m: Seq<Field>, k: Seq<char>, v: Seq<char>) -> Seq<Field> {
    if has_name(m, k) {
        let i = name_index(m, k);
        m.update(i, (m[i].0, v))
    } else {
        m.push((k, v))
    }
}

/// The fields after removing the one named `k`, if any.
pub open spec fn removed(m: Seq<Field>, k: Seq<char>) -> Seq<Field> {
    if has_name(m, k) {
        m.remove(name_index(m, k))
    } else {
        m
    }
}

/// The value of the field named `k`.
pub open spec fn value_of(m: Seq<Field>, k: Seq<char>) -> Option<Seq<char>> {
    if has_name(m, k) {
        Some(m[name_index(m, k)].1)
    } else {
        None
    }
}

/// The separator between a header's name and its value.
pub open spec fn colon_sp() -> Seq<u8> {
    seq![58u8, 32u8]
}

/// The field that a header line holds: the text before the first `": "` and
/// the text after it, each valid UTF-8.
pub open spec fn line_field(l: Seq<u8>) -> Option<Field> {
    match first_occurrence(l, colon_sp()) {
        Some(p) => {
            let name = l.subrange(0, p);
            let value = l.subrange(p + 2, l.len() as int);
            if valid_utf8(name) && valid_utf8(value) {
                Some((decode_utf8(name), decode_utf8(value)))
            } else {
                None
            }
        },
        None => None,
    }
}

/// The fields that a run of header lines gives, each well-formed line
/// inserted in turn.
pub open spec fn fields_of_lines(lines: Seq<Seq<u8>>) -> Seq<Field>
    decreases lines.len(),
{
    if lines.len() == 0 {
        Seq::empty()
    } else {
        let m = fields_of_lines(lines.drop_last());
        match line_field(lines.last()) {
            Some(f) => inserted(m, f.0, f.1),
            None => m,
        }
    }
}

/// An ordered set of header fields whose names are compared without regard to case.
#[derive(Debug, Clone)]
pub struct HeaderMap {
    pub headers: Vec<(String, String)>,
}

impl View for HeaderMap {
    type V = Seq<Field>;

    open spec fn view(&self) -> Seq<Field> {
        self.headers@.map_values(|p: (String, String)| (p.0@, p.1@))
    }
}

pub proof fn lemma_index_unique(m: Seq<Field>, k: Seq<char>, i: int)
    requires
        names_unique(m),
        0 <= i < m.len(),
        same_name(m[i].0, k),
    ensures
        has_name(m, k),
        name_index(m, k) == i,
{
    let j = name_index(m, k);
    assert(0 <= j < m.len() && same_name(m[j].0, k));
    if j != i {
        assert(!same_name(m[i].0, m[j].0));
    }
}

/// Inserting keeps the names unique.
pub proof fn lemma_inserted_unique(m: Seq<Field>, k: Seq<char>, v: Seq<char>)
    requires
        names_unique(m),
    ensures
        names_unique(inserted(m, k, v)),
{
    let r = inserted(m, k, v);
    if has_name(m, k) {
        let i = name_index(m, k);
        assert forall|a: int, b: int|
            0 <= a < r.len() && 0 <= b < r.len() && a != b implies !same_name(
            #[trigger] r[a].0,
            #[trigger] r[b].0,
        ) by {
            assert(r[a].0 == m[a].0);
            assert(r[b].0 == m[b].0);
        }
    } else {
        assert forall|a: int, b: int|
            0 <= a < r.len() && 0 <= b < r.len() && a != b implies !same_name(
            #[trigger] r[a].0,
            #[trigger] r[b].0,
        ) by {
            if a == m.len() as int {
                assert(!same_name(m[b].0, k));
            } else if b == m.len() as int {
                assert(!same_name(m[a].0, k));
            }
        }
    }
}

/// After setting `k: v`, looking up `k` gives `v`.
pub proof fn lemma_value_of_inserted(m: Seq<Field>, k: Seq<char>, v: Seq<char>)
    requires
        names_unique(m),
    ensures
        value_of(inserted(m, k, v), k) == Some(v),
        names_unique(inserted(m, k, v)),
{
    lemma_inserted_unique(m, k, v);
    let r = inserted(m, k, v);
    if has_name(m, k) {
        lemma_index_unique(r, k, name_index(m, k));
    } else {
        lemma_index_unique(r, k, m.len() as int);
    }
}

/// Setting a name twice, the second time in any letter case, leaves one
/// field of that name, where the first setting put it, holding the latest value.
pub proof fn lemma_insert_twice(m: Seq<Field>, k1: Seq<char>, v1: Seq<char>, k2: Seq<char>, v2: Seq<char>)
    requires
        names_unique(m),
        same_name(k1, k2),
    ensures
        inserted(inserted(m, k1, v1), k2, v2) == inserted(m, k1, v2),
        names_unique(inserted(inserted(m, k1, v1), k2, v2)),
{
    let once = inserted(m, k1, v1);
    lemma_inserted_unique(m, k1, v1);
    lemma_inserted_unique(once, k2, v2);
    if has_name(m, k1) {
        let i = name_index(m, k1);
        lemma_index_unique(once, k2, i);
        assert(inserted(once, k2, v2) =~= inserted(m, k1, v2));
    } else {
        let i = m.len() as int;
        assert(once[i].0 == k1);
        lemma_index_unique(once, k2, i);
        assert(inserted(once, k2, v2) =~= inserted(m, k1, v2));
    }
}

impl HeaderMap {
    /// The map's names are pairwise different, letter case aside.
    pub open spec fn wf(&self) -> bool {
        names_unique(self@)
    }

    pub fn new() -> (r: Self)
        ensures
            r@ == Seq::<Field>::empty(),
            r.wf(),
    {
        let r = HeaderMap { headers: Vec::new() };
        assert(r@ =~= Seq::<Field>::empty());
        r
    }

    pub fn is_empty(&self) -> (r: bool)
        ensures
            r == (self@.len() == 0),
    {
        self.headers.len() == 0
    }

    /// The position of the field named `key`.
    fn position(&self, key: &str) -> (r: Option<usize>)
        requires
            self.wf(),
        ensures
            r.is_some() == has_name(self@, key@),
            r matches Some(i) ==> i < self@.len() && i as int == name_index(self@, key@),
    {
        let mut i: usize = 0;
        while i < self.headers.len()
            invariant
                i <= self.headers@.len(),
                self.wf(),
                forall|j: int| 0 <= j < i ==> !same_name(#[trigger] self@[j].0, key@),
            decreases self.headers@.len() - i,
        {
            if eq_ignore_case(self.headers[i].0.as_str(), key) {
                proof {
                    assert(self@[i as int].0 == self.headers@[i as int].0@);
                    lemma_index_unique(self@, key@, i as int);
                }
                return Some(i);
            }
            assert(self@[i as int].0 == self.headers@[i as int].0@);
            i = i + 1;
        }
        None
    }

    /// Sets the field named `key` (letter case aside) to `value`, keeping its
    /// place and spelling; appends the field when there is none.
    pub fn insert(&mut self, key: &str, value: &str)
        requires
            old(self).wf(),
        ensures
            final(self).wf(),
            final(self)@ == inserted(old(self)@, key@, value@),
    {
        proof {
            lemma_inserted_unique(self@, key@, value@);
        }
        match self.position(key) {
            Some(i) => {
                let name = self.headers[i].0.clone();
                self.headers.set(i, (name, value.to_owned()));
                assert(self@ =~= inserted(old(self)@, key@, value@));
            },
            None => {
                self.headers.push((key.to_owned(), value.to_owned()));
                assert(self@ =~= inserted(old(self)@, key@, value@));
            },
        }
    }

    /// Removes the field named `key` (letter case aside); says whether there was one.
    pub fn remove(&mut self, key: &str) -> (r: bool)
        requires
            old(self).wf(),
        ensures
            final(self).wf(),
            r == has_name(old(self)@, key@),
            final(self)@ == removed(old(self)@, key@),
    {
        match self.position(key) {
            Some(i) => {
                self.headers.remove(i);
                assert(self@ =~= removed(old(self)@, key@));
                assert(names_unique(self@)) by {
                    assert forall|a: int, b: int|
                        0 <= a < self@.len() && 0 <= b < self@.len() && a != b implies !same_name(
                        #[trigger] self@[a].0,
                        #[trigger] self@[b].0,
                    ) by {
                        let a0 = if a < i { a } else { a + 1 };
                        let b0 = if b < i { b } else { b + 1 };
                        assert(self@[a] == old(self)@[a0]);
                        assert(self@[b] == old(self)@[b0]);
                    }
                }
                true
            },
            None => false,
        }
    }

    /// The value of the field named `key` (letter case aside).
    pub fn get(&self, key: &str) -> (r: Option<&str>)
        requires
            self.wf(),
        ensures
            r.is_some() == has_name(self@, key@),
            r matches Some(v) ==> value_of(self@, key@) == Some(v@),
    {
        match self.position(key) {
            Some(i) => Some(self.headers[i].1.as_str()),
            None => None,
        }
    }

    /// The value of the field named `key` (letter case aside), to be changed in place.
    pub fn get_mut(&mut self, key: &str) -> (r: Option<&mut String>)
        requires
            old(self).wf(),
        ensures
            r.is_some() == has_name(old(self)@, key@),
            r is None ==> final(self)@ == old(self)@,
            r matches Some(v) ==> {
                let i = name_index(old(self)@, key@);
                &&& value_of(old(self)@, key@) == Some(v@)
                &&& final(self)@ == old(self)@.update(i, (old(self)@[i].0, final(v)@))
            },
    {
        match self.position(key) {
            Some(i) => {
                Some(&mut self.headers[i].1)
            },
            None => None,
        }
    }

    /// Builds a map from header lines: each line is split at its first `": "`,
    /// a line without one is skipped. Gives `None` when no line held a field.
    pub fn from_header_lines(lines: &Vec<Vec<u8>>) -> (r: Option<Self>)
        ensures
            r.is_some() == (fields_of_lines(lines_view(lines@)).len() > 0),
            r matches Some(m) ==> m.wf() && m@ == fields_of_lines(lines_view(lines@)),
    {
        let mut m = HeaderMap::new();
        let mut i: usize = 0;
        while i < lines.len()
            invariant
                i <= lines@.len(),
                m.wf(),
                m@ == fields_of_lines(lines_view(lines@).subrange(0, i as int)),
            decreases lines@.len() - i,
        {
            let ghost before = lines_view(lines@).subrange(0, i as int);
            assert(lines_view(lines@).subrange(0, i + 1).drop_last() =~= before);
            let line = &lines[i];
            assert(lines_view(lines@).subrange(0, i + 1).last() == line@);
            match split_field(line.as_slice()) {
                Some((k, v)) => {
                    m.insert(k.as_str(), v.as_str());
                },
                None => {},
            }
            i = i + 1;
        }
        assert(lines_view(lines@).subrange(0, i as int) =~= lines_view(lines@));
        if m.is_empty() {
            None
        } else {
            Some(m)
        }
    }
}

/// Splits a header line into its name and value.
fn split_field(l: &[u8]) -> (r: Option<(String, String)>)
    ensures
        match (r, line_field(l@)) {
            (Some(p), Some(f)) => p.0@ == f.0 && p.1@ == f.1,
            (None, None) => true,
            _ => false,
        },
{
    let sep: [u8; 2] = [58u8, 32u8];
    let sep_slice: &[u8] = &sep;
    assert(sep_slice@ =~= colon_sp());
    if l.len() == 0 {
        proof {
            lemma_first_from_props(l@, colon_sp(), 0);
        }
        return None;
    }
    match find_from(l, sep_slice, 0) {
        Some(p) => {
            proof {
                lemma_first_from_props(l@, colon_sp(), 0);
            }
            let name = copy_range(l, 0, p);
            let value = copy_range(l, p + 2, l.len());
            match (utf8_string(name.as_slice()), utf8_string(value.as_slice())) {
                (Some(k), Some(v)) => Some((k, v)),
                _ => None,
            }
        },
        None => None,
    }
}

} // verus!
