//! A small map from strings to values, kept as a list in the order in
//! which the keys were first set, so that every operation has a proved
//! contract and the keys come out in an order that is known.

use crate::types::texts_view;
use vstd::prelude::*;

verus! {

/// The keys of a table with their values, side by side.
struct Rows<V> {
    keys: Vec<String>,
    values: Vec<V>,
}

impl<V> Rows<V> {
    /// No key occurs twice, and every key has its value.
    closed spec fn wf(&self) -> bool {
        &&& self.keys@.len() == self.values@.len()
        &&& forall|i: int, j: int|
            0 <= i < j < self.keys@.len() ==> self.keys@[i]@ != self.keys@[j]@
    }

    /// The keys, in the order in which they were first set.
    closed spec fn keys(&self) -> Seq<Seq<char>> {
        texts_view(self.keys@)
    }

    /// Whether the table has the key.
    closed spec fn has(&self, key: Seq<char>) -> bool {
        exists|i: int| 0 <= i < self.keys@.len() && self.keys@[i]@ == key
    }

    /// The value of a key that the table has.
    closed spec fn value(&self, key: Seq<char>) -> V {
        self.values@[choose|i: int| 0 <= i < self.keys@.len() && self.keys@[i]@ == key]
    }

    /// The table as a map.
    closed spec fn map(&self) -> Map<Seq<char>, V> {
        Map::new(|key: Seq<char>| self.has(key), |key: Seq<char>| self.value(key))
    }

    /// The keys are exactly the keys of the map, each once.
    proof fn lemma_keys(&self)
        requires
            self.wf(),
        ensures
            self.keys().no_duplicates(),
            forall|key: Seq<char>| self.keys().contains(key) <==> self.map().contains_key(key),
    {
        assert forall|key: Seq<char>| self.keys().contains(key) implies self.has(key) by {
            let i = choose|i: int| 0 <= i < self.keys().len() && self.keys()[i] == key;
            assert(self.keys@[i]@ == key);
        }
        assert forall|key: Seq<char>| self.has(key) implies self.keys().contains(key) by {
            let i = choose|i: int| 0 <= i < self.keys@.len() && self.keys@[i]@ == key;
            assert(self.keys()[i] == key);
        }
    }

    /// A table without keys.
    fn new() -> (r: Self)
        ensures
            r.wf(),
            r.map() == Map::<Seq<char>, V>::empty(),
            r.keys() == Seq::<Seq<char>>::empty(),
    {
        let r = Rows { keys: Vec::new(), values: Vec::new() };
        assert(r.map() =~= Map::<Seq<char>, V>::empty());
        assert(r.keys() =~= Seq::<Seq<char>>::empty());
        r
    }

    /// The place of `key` in the list of keys.
    fn position(&self, key: &str) -> (r: Option<usize>)
        requires
            self.wf(),
        ensures
            match r {
                Some(i) => i < self.keys@.len() && self.keys@[i as int]@ == key@ && self.has(key@)
                    && self.value(key@) == self.values@[i as int],
                None => !self.has(key@),
            },
    {
        let mut i: usize = 0;
        while i < self.keys.len()
            invariant
                self.wf(),
                i <= self.keys@.len(),
                forall|k: int| 0 <= k < i ==> self.keys@[k]@ != key@,
            decreases self.keys.len() - i,
        {
            if crate::text::same(
                crate::text::chars_of(self.keys[i].as_str()).as_slice(),
                crate::text::chars_of(key).as_slice(),
            ) {
                proof {
                    let j = choose|j: int| 0 <= j < self.keys@.len() && self.keys@[j]@ == key@;
                    assert(j == i);
                }
                return Some(i);
            }
            i += 1;
        }
        None
    }

    /// The number of keys.
    fn len(&self) -> (n: usize)
        requires
            self.wf(),
        ensures
            n == self.keys().len(),
    {
        self.keys.len()
    }

    /// The value of `key`, if the table has it.
    fn get(&self, key: &str) -> (r: Option<&V>)
        requires
            self.wf(),
        ensures
            match r {
                Some(v) => self.map().contains_key(key@) && *v == self.map()[key@],
                None => !self.map().contains_key(key@),
            },
    {
        match self.position(key) {
            Some(i) => Some(&self.values[i]),
            None => None,
        }
    }

    /// Sets the value of `key` and returns the value it had. A new key
    /// goes to the end of the keys.
    fn set(&mut self, key: String, value: V) -> (r: Option<V>)
        requires
            old(self).wf(),
        ensures
            final(self).wf(),
            final(self).map() == old(self).map().insert(key@, value),
            r == if old(self).map().contains_key(key@) {
                Some(old(self).map()[key@])
            } else {
                None::<V>
            },
            final(self).keys() == if old(self).map().contains_key(key@) {
                old(self).keys()
            } else {
                old(self).keys().push(key@)
            },
    {
        let ghost before = *self;
        match self.position(key.as_str()) {
            Some(i) => {
                self.values.push(value);
                let previous = self.values.swap_remove(i);
                assert(self.keys@ == before.keys@);
                assert(self.values@ =~= before.values@.update(i as int, value));
                assert forall|k: Seq<char>| self.has(k) == before.has(k) by {
                    if self.has(k) {
                        let j = choose|j: int| 0 <= j < self.keys@.len() && self.keys@[j]@ == k;
                        assert(before.keys@[j]@ == k);
                    }
                    if before.has(k) {
                        let j = choose|j: int| 0 <= j < before.keys@.len() && before.keys@[j]@ == k;
                        assert(self.keys@[j]@ == k);
                    }
                }
                assert forall|k: Seq<char>| self.has(k) implies self.value(k) == (if k == key@ {
                    value
                } else {
                    before.value(k)
                }) by {
                    let j = choose|j: int| 0 <= j < self.keys@.len() && self.keys@[j]@ == k;
                    let j2 = choose|j: int| 0 <= j < before.keys@.len() && before.keys@[j]@ == k;
                    assert(j == j2);
                    if k == key@ {
                        assert(j == i);
                    }
                }
                assert(self.map() =~= before.map().insert(key@, value));
                Some(previous)
            },
            None => {
                self.keys.push(key);
                self.values.push(value);
                let ghost n = before.keys@.len() as int;
                assert(self.keys@[n]@ == key@);
                assert forall|k: Seq<char>| self.has(k) == (before.has(k) || k == key@) by {
                    if self.has(k) {
                        let j = choose|j: int| 0 <= j < self.keys@.len() && self.keys@[j]@ == k;
                        if j < n {
                            assert(before.keys@[j]@ == k);
                        }
                    }
                    if before.has(k) {
                        let j = choose|j: int| 0 <= j < before.keys@.len() && before.keys@[j]@ == k;
                        assert(self.keys@[j]@ == k);
                    }
                }
                assert forall|k: Seq<char>| self.has(k) implies self.value(k) == (if k == key@ {
                    value
                } else {
                    before.value(k)
                }) by {
                    let j = choose|j: int| 0 <= j < self.keys@.len() && self.keys@[j]@ == k;
                    if k == key@ {
                        assert(j == n);
                    } else {
                        assert(j < n);
                        assert(before.keys@[j]@ == k);
                        let j2 = choose|j: int|
                            0 <= j < before.keys@.len() && before.keys@[j]@ == k;
                        assert(j == j2);
                    }
                }
                assert(self.map() =~= before.map().insert(key@, value));
                assert(self.keys() =~= before.keys().push(key@));
                None
            },
        }
    }

    /// Takes `key` out of the table and returns the value it had.
    fn remove(&mut self, key: &str) -> (r: Option<V>)
        requires
            old(self).wf(),
        ensures
            final(self).wf(),
            final(self).map() == old(self).map().remove(key@),
            r == if old(self).map().contains_key(key@) {
                Some(old(self).map()[key@])
            } else {
                None::<V>
            },
            final(self).keys() == old(self).keys().filter(other_than(key@)),
    {
        let ghost before = *self;
        match self.position(key) {
            Some(i) => {
                proof {
                    assert forall|j: int| 0 <= j < before.keys().len() && j != i implies before.keys()[j]
                        != key@ by {
                        assert(before.keys@[j]@ == before.keys()[j]);
                    }
                    assert(before.keys()[i as int] == key@);
                }
                let _ = self.keys.remove(i);
                let previous = self.values.remove(i);
                assert forall|k: Seq<char>| self.has(k) == (before.has(k) && k != key@) by {
                    if self.has(k) {
                        let j = choose|j: int| 0 <= j < self.keys@.len() && self.keys@[j]@ == k;
                        if j < i {
                            assert(before.keys@[j]@ == k);
                        } else {
                            assert(before.keys@[j + 1]@ == k);
                        }
                    }
                    if before.has(k) && k != key@ {
                        let j = choose|j: int| 0 <= j < before.keys@.len() && before.keys@[j]@ == k;
                        if j < i {
                            assert(self.keys@[j]@ == k);
                        } else {
                            assert(self.keys@[j - 1]@ == k);
                        }
                    }
                }
                assert forall|k: Seq<char>| self.has(k) implies self.value(k) == before.value(
                    k,
                ) by {
                    let j = choose|j: int| 0 <= j < self.keys@.len() && self.keys@[j]@ == k;
                    let j2 = choose|j: int| 0 <= j < before.keys@.len() && before.keys@[j]@ == k;
                    if j < i {
                        assert(before.keys@[j]@ == k);
                        assert(j2 == j);
                    } else {
                        assert(before.keys@[j + 1]@ == k);
                        assert(j2 == j + 1);
                    }
                }
                assert(self.map() =~= before.map().remove(key@));
                proof {
                    lemma_filter_one(before.keys(), key@, i as int);
                    assert(self.keys() =~= before.keys().remove(i as int));
                }
                Some(previous)
            },
            None => {
                assert(self.map() =~= before.map().remove(key@));
                assert forall|j: int| 0 <= j < before.keys().len() implies before.keys()[j]
                    != key@ by {
                    assert(before.keys@[j]@ == before.keys()[j]);
                }
                proof {
                    lemma_filter_all(before.keys(), key@);
                }
                None
            },
        }
    }

    /// The keys, in the order in which they were first set.
    fn key_list(&self) -> (r: Vec<String>)
        requires
            self.wf(),
        ensures
            texts_view(r@) == self.keys(),
    {
        crate::types::clone_texts(&self.keys)
    }
}

/// Whether a key is another than `key`.
pub open spec fn other_than(key: Seq<char>) -> spec_fn(Seq<char>) -> bool {
    |k: Seq<char>| k != key
}

/// Filtering out a value that does not occur changes nothing.
pub proof fn lemma_filter_all(s: Seq<Seq<char>>, key: Seq<char>)
    ensures
        (forall|j: int| 0 <= j < s.len() ==> s[j] != key) ==> s.filter(other_than(key))
            == s,
    decreases s.len(),
{
    reveal(Seq::filter);
    if s.len() > 0 {
        lemma_filter_all(s.drop_last(), key);
        if forall|j: int| 0 <= j < s.len() ==> s[j] != key {
            assert forall|j: int| 0 <= j < s.drop_last().len() implies s.drop_last()[j] != key by {
                assert(s.drop_last()[j] == s[j]);
            }
            assert(s.drop_last().push(s.last()) =~= s);
        }
    }
}

/// Filtering out a value that occurs once, at `i`, removes that entry.
pub proof fn lemma_filter_one(s: Seq<Seq<char>>, key: Seq<char>, i: int)
    requires
        0 <= i < s.len(),
        s[i] == key,
        forall|j: int| 0 <= j < s.len() && j != i ==> s[j] != key,
    ensures
        s.filter(other_than(key)) == s.remove(i),
    decreases s.len(),
{
    reveal(Seq::filter);
    let last = s.len() - 1;
    if i == last {
        lemma_filter_all(s.drop_last(), key);
        assert forall|j: int| 0 <= j < s.drop_last().len() implies s.drop_last()[j] != key by {
            assert(s.drop_last()[j] == s[j]);
        }
        assert(s.remove(i) =~= s.drop_last());
    } else {
        assert(s.drop_last()[i] == key);
        assert forall|j: int| 0 <= j < s.drop_last().len() && j != i implies s.drop_last()[j]
            != key by {
            assert(s.drop_last()[j] == s[j]);
        }
        lemma_filter_one(s.drop_last(), key, i);
        assert(s.remove(i) =~= s.drop_last().remove(i).push(s.last()));
    }
}

/// A map from strings to values.
pub struct Table<V> {
    rows: Rows<V>,
}

impl<V> Table<V> {
    /// No key occurs twice.
    #[verifier::type_invariant]
    spec fn sound(&self) -> bool {
        self.rows.wf()
    }

    /// The keys, in the order in which they were first set.
    pub closed spec fn keys(&self) -> Seq<Seq<char>> {
        self.rows.keys()
    }

    /// The table as a map.
    pub closed spec fn map(&self) -> Map<Seq<char>, V> {
        self.rows.map()
    }

    /// A table without keys.
    pub fn new() -> (r: Self)
        ensures
            r.map() == Map::<Seq<char>, V>::empty(),
            r.keys() == Seq::<Seq<char>>::empty(),
    {
        Table { rows: Rows::new() }
    }

    /// The number of keys.
    pub fn len(&self) -> (n: usize)
        ensures
            n == self.keys().len(),
    {
        proof {
            use_type_invariant(self);
        }
        self.rows.len()
    }

    /// The value of `key`, if the table has it.
    pub fn get(&self, key: &str) -> (r: Option<&V>)
        ensures
            match r {
                Some(v) => self.map().contains_key(key@) && *v == self.map()[key@],
                None => !self.map().contains_key(key@),
            },
    {
        proof {
            use_type_invariant(self);
        }
        self.rows.get(key)
    }

    /// Sets the value of `key` and returns the value it had. A new key
    /// goes to the end of the keys.
    pub fn set(&mut self, key: String, value: V) -> (r: Option<V>)
        ensures
            final(self).map() == old(self).map().insert(key@, value),
            r == if old(self).map().contains_key(key@) {
                Some(old(self).map()[key@])
            } else {
                None::<V>
            },
            final(self).keys() == if old(self).map().contains_key(key@) {
                old(self).keys()
            } else {
                old(self).keys().push(key@)
            },
    {
        proof {
            use_type_invariant(&*self);
        }
        let mut rows = Rows::new();
        core::mem::swap(&mut rows, &mut self.rows);
        let r = rows.set(key, value);
        self.rows = rows;
        r
    }

    /// Takes `key` out of the table and returns the value it had.
    pub fn remove(&mut self, key: &str) -> (r: Option<V>)
        ensures
            final(self).map() == old(self).map().remove(key@),
            r == if old(self).map().contains_key(key@) {
                Some(old(self).map()[key@])
            } else {
                None::<V>
            },
            final(self).keys() == old(self).keys().filter(other_than(key@)),
    {
        proof {
            use_type_invariant(&*self);
        }
        let mut rows = Rows::new();
        core::mem::swap(&mut rows, &mut self.rows);
        let r = rows.remove(key);
        self.rows = rows;
        r
    }

    /// The keys, in the order in which they were first set: the keys of the
    /// map, each once.
    pub fn key_list(&self) -> (r: Vec<String>)
        ensures
            texts_view(r@) == self.keys(),
            self.keys().no_duplicates(),
            forall|key: Seq<char>| self.keys().contains(key) <==> self.map().contains_key(key),
    {
        proof {
            use_type_invariant(self);
            self.rows.lemma_keys();
        }
        self.rows.key_list()
    }
}

} // verus!
