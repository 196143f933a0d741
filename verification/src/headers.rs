//! The header mapping of a request or a response.
//!
//! A mapping is modelled as the sequence of its `(name, value)` pairs in the
//! order in which their names first appeared. No name occurs twice: writing a
//! name that is already present replaces its value in place.

use vstd::prelude::*;
use crate::text::same_bytes;

verus! {

/// The model of one header: its name and its value.
pub type HeaderPair = (Seq<u8>, Seq<u8>);

/// Whether no name occurs twice in `h`.
pub open spec fn names_distinct(h: Seq<HeaderPair>) -> bool {
    forall|i: int, j: int| 0 <= i < j < h.len() ==> (#[trigger] h[i]).0 != (#[trigger] h[j]).0
}

/// Whether `h` holds a header called `name`. Names are compared byte for
/// byte, so case matters.
pub open spec fn has_name(h: Seq<HeaderPair>, name: Seq<u8>) -> bool {
    exists|i: int| 0 <= i < h.len() && (#[trigger] h[i]).0 == name
}

/// The place of the header called `name`, where there is one.
pub open spec fn position(h: Seq<HeaderPair>, name: Seq<u8>) -> int {
    choose|i: int| 0 <= i < h.len() && (#[trigger] h[i]).0 == name
}

/// The value stored under `name`.
pub open spec fn lookup(h: Seq<HeaderPair>, name: Seq<u8>) -> Option<Seq<u8>> {
    if has_name(h, name) {
        Some(h[position(h, name)].1)
    } else {
        None
    }
}

/// The mapping after writing `value` under `name`: an existing header keeps
/// its place and takes the new value, a new one goes to the end.
pub open spec fn insert(h: Seq<HeaderPair>, name: Seq<u8>, value: Seq<u8>) -> Seq<HeaderPair> {
    if has_name(h, name) {
        h.update(position(h, name), (name, value))
    } else {
        h.push((name, value))
    }
}

/// The mapping as a finite map from names to values.
pub open spec fn as_map(h: Seq<HeaderPair>) -> Map<Seq<u8>, Seq<u8>> {
    Map::new(|name: Seq<u8>| has_name(h, name), |name: Seq<u8>| h[position(h, name)].1)
}

/// In a mapping without repeated names, a header is found at its own place.
pub proof fn lemma_position(h: Seq<HeaderPair>, i: int)
    requires
        names_distinct(h),
        0 <= i < h.len(),
    ensures
        has_name(h, h[i].0),
        position(h, h[i].0) == i,
        lookup(h, h[i].0) == Some(h[i].1),
{
    let p = position(h, h[i].0);
    assert(0 <= p < h.len() && h[p].0 == h[i].0);
    if p < i {
        assert(h[p].0 != h[i].0);
    } else if i < p {
        assert(h[i].0 != h[p].0);
    }
}

/// Writing a header keeps names distinct.
pub proof fn lemma_insert_distinct(h: Seq<HeaderPair>, name: Seq<u8>, value: Seq<u8>)
    requires
        names_distinct(h),
    ensures
        names_distinct(insert(h, name, value)),
{
    let r = insert(h, name, value);
    if has_name(h, name) {
        let p = position(h, name);
        assert forall|i: int, j: int| 0 <= i < j < r.len() implies (#[trigger] r[i]).0 != (
        #[trigger] r[j]).0 by {
            assert(r[i].0 == h[i].0);
            assert(r[j].0 == h[j].0);
        }
    } else {
        assert forall|i: int, j: int| 0 <= i < j < r.len() implies (#[trigger] r[i]).0 != (
        #[trigger] r[j]).0 by {
            if j < h.len() {
                assert(r[i] == h[i] && r[j] == h[j]);
            } else {
                assert(r[i] == h[i]);
                assert(h[i].0 != name);
            }
        }
    }
}

/// Last write wins: after writing `value` under `name`, that name maps to
/// `value` and every other name maps to what it mapped to before.
pub proof fn lemma_insert_is_map_insert(h: Seq<HeaderPair>, name: Seq<u8>, value: Seq<u8>)
    requires
        names_distinct(h),
    ensures
        as_map(insert(h, name, value)) == as_map(h).insert(name, value),
        lookup(insert(h, name, value), name) == Some(value),
        forall|other: Seq<u8>|
            other != name ==> lookup(insert(h, name, value), other) == lookup(h, other),
{
    let r = insert(h, name, value);
    lemma_insert_distinct(h, name, value);
    let at: int = if has_name(h, name) {
        position(h, name)
    } else {
        h.len() as int
    };
    assert(r[at] == (name, value));
    lemma_position(r, at);
    assert forall|other: Seq<u8>| other != name implies (has_name(r, other) <==> has_name(
        h,
        other,
    )) && lookup(r, other) == lookup(h, other) by {
        if has_name(h, other) {
            let p = position(h, other);
            assert(r[p] == h[p]);
            lemma_position(r, p);
            lemma_position(h, p);
        }
        if has_name(r, other) {
            let p = position(r, other);
            assert(p != at);
            assert(r[p] == h[p]);
            lemma_position(h, p);
            lemma_position(r, p);
        }
    }
    assert(as_map(r) =~= as_map(h).insert(name, value));
}

/// One stored header.
#[derive(Debug, Clone)]
pub struct Header {
    pub name: Vec<u8>,
    pub value: Vec<u8>,
}

impl View for Header {
    type V = HeaderPair;

    open spec fn view(&self) -> HeaderPair {
        (self.name@, self.value@)
    }
}

/// A header mapping with case-preserving names.
#[derive(Debug)]
pub struct Headers {
    entries: Vec<Header>,
}

impl View for Headers {
    type V = Seq<HeaderPair>;

    closed spec fn view(&self) -> Seq<HeaderPair> {
        self.entries@.map_values(|h: Header| h@)
    }
}

impl Headers {
    #[verifier::type_invariant]
    spec fn names_are_distinct(&self) -> bool {
        names_distinct(self@)
    }

    /// An empty mapping.
    pub fn new() -> (out: Self)
        ensures
            out@ == Seq::<HeaderPair>::empty(),
    {
        let out = Headers { entries: Vec::new() };
        assert(out@ =~= Seq::<HeaderPair>::empty());
        out
    }

    /// The number of headers. No two of them share a name.
    pub fn len(&self) -> (n: usize)
        ensures
            n == self@.len(),
            names_distinct(self@),
    {
        proof {
            use_type_invariant(self);
        }
        self.entries.len()
    }

    /// The name of the header at place `i`.
    pub fn name_at(&self, i: usize) -> (name: &Vec<u8>)
        requires
            i < self@.len(),
        ensures
            name@ == self@[i as int].0,
    {
        &self.entries[i].name
    }

    /// The value of the header at place `i`.
    pub fn value_at(&self, i: usize) -> (value: &Vec<u8>)
        requires
            i < self@.len(),
        ensures
            value@ == self@[i as int].1,
    {
        &self.entries[i].value
    }

    /// The place of the header called `name`, where there is one.
    pub fn find(&self, name: &[u8]) -> (r: Option<usize>)
        ensures
            r is Some <==> has_name(self@, name@),
            r matches Some(i) ==> i == position(self@, name@) && i < self@.len(),
    {
        proof {
            use_type_invariant(self);
        }
        let mut i: usize = 0;
        while i < self.entries.len()
            invariant
                0 <= i <= self.entries.len(),
                names_distinct(self@),
                forall|j: int| 0 <= j < i ==> (#[trigger] self@[j]).0 != name@,
            decreases self.entries.len() - i,
        {
            if same_bytes(self.entries[i].name.as_slice(), name) {
                proof {
                    lemma_position(self@, i as int);
                }
                return Some(i);
            }
            i = i + 1;
        }
        None
    }

    /// The value stored under `name`.
    pub fn get(&self, name: &[u8]) -> (r: Option<&Vec<u8>>)
        ensures
            match r {
                Some(value) => lookup(self@, name@) == Some(value@),
                None => lookup(self@, name@) is None,
            },
    {
        match self.find(name) {
            Some(i) => Some(&self.entries[i].value),
            None => None,
        }
    }

    /// Writes `value` under `name`, replacing the value of a header that is
    /// already there.
    pub fn insert(&mut self, name: Vec<u8>, value: Vec<u8>)
        ensures
            final(self)@ == insert(old(self)@, name@, value@),
            names_distinct(old(self)@),
            names_distinct(final(self)@),
    {
        proof {
            use_type_invariant(&*self);
            lemma_insert_distinct(self@, name@, value@);
        }
        let ghost before = self@;
        let found = self.find(name.as_slice());
        let mut entries: Vec<Header> = Vec::new();
        core::mem::swap(&mut self.entries, &mut entries);
        match found {
            Some(i) => {
                entries.set(i, Header { name, value });
                assert(entries@.map_values(|h: Header| h@) =~= before.update(
                    i as int,
                    (name@, value@),
                ));
            },
            None => {
                entries.push(Header { name, value });
                assert(entries@.map_values(|h: Header| h@) =~= before.push((name@, value@)));
            },
        }
        core::mem::swap(&mut self.entries, &mut entries);
    }
}

} // verus!
