//! A small map from names to values, kept in insertion order.

use vstd::prelude::*;
use vstd::string::StringSliceAdditionalSpecFns;

verus! {

/// Tells whether two string slices hold the same text.
pub fn str_eq(a: &str, b: &str) -> (r: bool)
    ensures
        r == (a@ == b@),
{
    let x = a.as_bytes();
    let y = b.as_bytes();
    proof {
        vstd::utf8::encode_utf8_decode_utf8(a@);
        vstd::utf8::encode_utf8_decode_utf8(b@);
    }
    if x.len() != y.len() {
        return false;
    }
    let mut i: usize = 0;
    while i < x.len()
        invariant
            i <= x@.len(),
            x@.len() == y@.len(),
            x@ == a.spec_bytes(),
            y@ == b.spec_bytes(),
            forall|k: int| 0 <= k < i ==> x@[k] == y@[k],
        decreases x@.len() - i,
    {
        if x[i] != y[i] {
            return false;
        }
        i += 1;
    }
    assert(x@ =~= y@);
    true
}

/// A map from names to values. Each name occurs once; the names stand in
/// the order in which they first came.
pub struct NameMap<V> {
    names: Vec<String>,
    values: Vec<V>,
}

impl<V: Copy> NameMap<V> {
    /// The names, in order of first insertion.
    pub closed spec fn names(&self) -> Seq<Seq<char>> {
        Seq::new(self.names@.len(), |i: int| self.names@[i]@)
    }

    /// As many values as names, and no name twice.
    pub closed spec fn wf(&self) -> bool {
        &&& self.names@.len() == self.values@.len()
        &&& forall|i: int, j: int|
            0 <= i < j < self.names@.len() ==> self.names@[i]@ != self.names@[j]@
    }

    closed spec fn index_of(&self, name: Seq<char>) -> int {
        choose|i: int| 0 <= i < self.names@.len() && self.names@[i]@ == name
    }

    /// The map from each name to its value.
    pub closed spec fn view(&self) -> Map<Seq<char>, V> {
        Map::new(
            |name: Seq<char>|
                exists|i: int| 0 <= i < self.names@.len() && self.names@[i]@ == name,
            |name: Seq<char>| self.values@[self.index_of(name)],
        )
    }

    /// The names are those of the map, each once.
    pub proof fn lemma_names(&self)
        requires
            self.wf(),
        ensures
            forall|name: Seq<char>|
                self@.dom().contains(name) <==> exists|i: int|
                    0 <= i < self.names().len() && #[trigger] self.names()[i] == name,
            forall|i: int, j: int|
                0 <= i < j < self.names().len() ==> self.names()[i] != self.names()[j],
    {
        assert forall|name: Seq<char>| self@.dom().contains(name) implies exists|i: int|
            0 <= i < self.names().len() && #[trigger] self.names()[i] == name by {
            let i = self.index_of(name);
            assert(self.names()[i] == name);
        }
        assert forall|name: Seq<char>|
            (exists|i: int| 0 <= i < self.names().len() && #[trigger] self.names()[i] == name)
                implies self@.dom().contains(name) by {
            let i = choose|i: int| 0 <= i < self.names().len() && #[trigger] self.names()[i]
                == name;
            assert(self.names@[i]@ == name);
        }
    }

    /// Creates an empty map.
    pub fn new() -> (r: Self)
        ensures
            r.wf(),
            r@ == Map::<Seq<char>, V>::empty(),
            r.names() == Seq::<Seq<char>>::empty(),
    {
        let r = NameMap { names: Vec::new(), values: Vec::new() };
        assert(r@ =~= Map::<Seq<char>, V>::empty());
        assert(r.names() =~= Seq::<Seq<char>>::empty());
        r
    }

    /// Returns the number of names.
    pub fn len(&self) -> (r: usize)
        requires
            self.wf(),
        ensures
            r == self.names().len(),
    {
        self.names.len()
    }

    fn position(&self, name: &str) -> (r: Option<usize>)
        requires
            self.wf(),
        ensures
            match r {
                Some(i) => i < self.names@.len() && self.names@[i as int]@ == name@,
                None => forall|i: int| 0 <= i < self.names@.len() ==> self.names@[i]@ != name@,
            },
    {
        let mut i: usize = 0;
        while i < self.names.len()
            invariant
                i <= self.names@.len(),
                forall|k: int| 0 <= k < i ==> self.names@[k]@ != name@,
            decreases self.names@.len() - i,
        {
            if str_eq(self.names[i].as_str(), name) {
                return Some(i);
            }
            i += 1;
        }
        None
    }

    /// Returns the value that stands under `name`, if there is one.
    pub fn get(&self, name: &str) -> (r: Option<V>)
        requires
            self.wf(),
        ensures
            r == if self@.dom().contains(name@) {
                Some(self@[name@])
            } else {
                None
            },
    {
        match self.position(name) {
            Some(i) => {
                assert(self.index_of(name@) == i);
                Some(self.values[i])
            },
            None => None,
        }
    }

    /// Puts `value` under `name`, in place of the value that stood there if
    /// the name was known, and as a new last name if it was not.
    pub fn insert(&mut self, name: String, value: V)
        requires
            old(self).wf(),
        ensures
            final(self).wf(),
            final(self)@ == old(self)@.insert(name@, value),
            final(self).names() == if old(self)@.dom().contains(name@) {
                old(self).names()
            } else {
                old(self).names().push(name@)
            },
    {
        let ghost before = *self;
        match self.position(name.as_str()) {
            Some(i) => {
                self.values[i] = value;
                proof {
                    assert forall|k: Seq<char>| #[trigger]
                        self@.dom().contains(k) == before@.insert(name@, value).dom().contains(
                            k,
                        ) by {
                        if before@.insert(name@, value).dom().contains(k) {
                            if k == name@ {
                                assert(self.names@[i as int]@ == k);
                            } else {
                                let j = before.index_of(k);
                                assert(self.names@[j]@ == k);
                            }
                        }
                    }
                    assert forall|k: Seq<char>| self@.dom().contains(k) implies #[trigger] self@[k]
                        == before@.insert(name@, value)[k] by {
                        let j = self.index_of(k);
                        assert(before.index_of(k) == j);
                    }
                    assert(self@ =~= before@.insert(name@, value));
                    assert(before@.dom().contains(name@));
                    assert(self.names() =~= before.names());
                }
            },
            None => {
                self.names.push(name);
                self.values.push(value);
                proof {
                    let n = before.names@.len() as int;
                    assert forall|k: Seq<char>| #[trigger]
                        self@.dom().contains(k) == before@.insert(name@, value).dom().contains(
                            k,
                        ) by {
                        if before@.insert(name@, value).dom().contains(k) {
                            if k == name@ {
                                assert(self.names@[n]@ == k);
                            } else {
                                let j = before.index_of(k);
                                assert(self.names@[j]@ == k);
                            }
                        }
                        if self@.dom().contains(k) && k != name@ {
                            let j = self.index_of(k);
                            assert(before.names@[j]@ == k);
                        }
                    }
                    assert forall|k: Seq<char>| self@.dom().contains(k) implies #[trigger] self@[k]
                        == before@.insert(name@, value)[k] by {
                        let j = self.index_of(k);
                        if k != name@ {
                            assert(before.names@[j]@ == k);
                            assert(before.index_of(k) == j);
                        }
                    }
                    assert(self@ =~= before@.insert(name@, value));
                    assert(!before@.dom().contains(name@));
                    assert(self.names() =~= before.names().push(name@));
                }
            },
        }
    }

    /// Returns the names, in order of first insertion.
    pub fn keys(&self) -> (r: Vec<String>)
        requires
            self.wf(),
        ensures
            r@.len() == self.names().len(),
            forall|i: int| 0 <= i < r@.len() ==> r@[i]@ == self.names()[i],
    {
        let mut out: Vec<String> = Vec::new();
        let mut i: usize = 0;
        while i < self.names.len()
            invariant
                i <= self.names@.len(),
                out@.len() == i,
                forall|k: int| 0 <= k < i ==> out@[k]@ == self.names@[k]@,
            decreases self.names@.len() - i,
        {
            out.push(self.names[i].clone());
            i += 1;
        }
        out
    }
}

} // verus!
