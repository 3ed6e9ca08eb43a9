//! A map from names to values that keeps its entries in insertion order.

use vstd::prelude::*;
use crate::text::{first_index, lemma_first_index, str_eq};

verus! {

/// A map keyed by name. Entries keep the order in which their names were
/// first inserted; inserting a name that is present replaces its value. No
/// name occurs in two entries.
#[derive(Debug)]
pub struct NamedMap<V> {
    pub(crate) entries: Vec<(String, V)>,
}

impl<V> NamedMap<V> {
    /// The names, in entry order.
    pub closed spec fn key_list(&self) -> Seq<Seq<char>> {
        self.entries@.map_values(|e: (String, V)| e.0@)
    }

    /// The values, in entry order.
    pub closed spec fn value_list(&self) -> Seq<V> {
        self.entries@.map_values(|e: (String, V)| e.1)
    }

    /// The value of the first entry named `k`.
    pub open spec fn spec_get(&self, k: Seq<char>) -> Option<V> {
        match first_index(self.key_list(), k) {
            Some(i) => Some(self.value_list()[i]),
            None => None,
        }
    }

    /// The number of entries.
    pub open spec fn spec_len(&self) -> nat {
        self.key_list().len()
    }

    /// No name occurs in two entries.
    #[verifier::type_invariant]
    spec fn names_distinct(&self) -> bool {
        self.key_list().no_duplicates()
    }

    /// There are as many names as values.
    pub proof fn lemma_lengths(&self)
        ensures
            self.key_list().len() == self.value_list().len(),
            self.spec_len() == self.value_list().len(),
    {
    }

    /// An empty map.
    pub fn new() -> (m: Self)
        ensures
            m.key_list() == Seq::<Seq<char>>::empty(),
            m.value_list() == Seq::<V>::empty(),
            m.spec_len() == 0,
    {
        let m = NamedMap { entries: Vec::new() };
        assert(m.key_list() =~= Seq::<Seq<char>>::empty());
        assert(m.value_list() =~= Seq::<V>::empty());
        m
    }

    /// The number of entries; no name occurs in two of them.
    pub fn len(&self) -> (n: usize)
        ensures
            n == self.spec_len(),
            n == self.value_list().len(),
            self.key_list().no_duplicates(),
    {
        proof {
            use_type_invariant(self);
        }
        self.entries.len()
    }

    /// Whether the map has no entries.
    pub fn is_empty(&self) -> (b: bool)
        ensures
            b == (self.spec_len() == 0),
    {
        self.entries.len() == 0
    }

    /// The name and the value of the entry at `i`.
    pub fn entry_at(&self, i: usize) -> (r: (&String, &V))
        requires
            i < self.spec_len(),
        ensures
            r.0@ == self.key_list()[i as int],
            *r.1 == self.value_list()[i as int],
    {
        let e = &self.entries[i];
        (&e.0, &e.1)
    }

    /// The entries, in order.
    pub fn entries(&self) -> (r: &Vec<(String, V)>)
        ensures
            r@.map_values(|e: (String, V)| e.0@) == self.key_list(),
            r@.map_values(|e: (String, V)| e.1) == self.value_list(),
    {
        &self.entries
    }

    /// The entries, in order, taken out of the map.
    pub fn into_entries(self) -> (r: Vec<(String, V)>)
        ensures
            r@.map_values(|e: (String, V)| e.0@) == self.key_list(),
            r@.map_values(|e: (String, V)| e.1) == self.value_list(),
    {
        self.entries
    }

    /// Position of the first entry named `k`.
    pub fn position(&self, k: &str) -> (r: Option<usize>)
        ensures
            match r {
                Some(i) => first_index(self.key_list(), k@) == Some(i as int),
                None => first_index(self.key_list(), k@) is None,
            },
    {
        proof {
            lemma_first_index(self.key_list(), k@);
        }
        let mut i: usize = 0;
        while i < self.entries.len()
            invariant
                i <= self.entries@.len(),
                forall|j: int| 0 <= j < i ==> self.key_list()[j] != k@,
            decreases self.entries.len() - i,
        {
            if str_eq(self.entries[i].0.as_str(), k) {
                proof {
                    let kl = self.key_list();
                    lemma_first_index(kl, k@);
                    assert(kl[i as int] == k@);
                    assert(kl.contains(k@));
                    let f = first_index(kl, k@).unwrap();
                    if f > i {
                        assert(kl[i as int] != k@);
                    }
                    if f < i {
                        assert(kl[f] != k@);
                    }
                }
                return Some(i);
            }
            i = i + 1;
        }
        proof {
            if self.key_list().contains(k@) {
                let j = choose|j: int| 0 <= j < self.key_list().len() && self.key_list()[j] == k@;
                assert(self.key_list()[j] == k@);
            }
        }
        None
    }

    /// The value named `k`, if any.
    pub fn get(&self, k: &str) -> (r: Option<&V>)
        ensures
            match r {
                Some(v) => self.spec_get(k@) == Some(*v),
                None => self.spec_get(k@) is None,
            },
    {
        proof {
            lemma_first_index(self.key_list(), k@);
        }
        match self.position(k) {
            Some(i) => Some(&self.entries[i].1),
            None => None,
        }
    }

    /// Whether some entry is named `k`.
    pub fn contains_key(&self, k: &str) -> (b: bool)
        ensures
            b == self.key_list().contains(k@),
            b == self.spec_get(k@) is Some,
    {
        proof {
            lemma_first_index(self.key_list(), k@);
        }
        self.position(k).is_some()
    }

    /// Sets the value named `k`: replaces the value of an entry with that
    /// name, or adds an entry at the end. Returns the value replaced.
    pub fn insert(&mut self, k: String, v: V) -> (r: Option<V>)
        ensures
            match first_index(old(self).key_list(), k@) {
                Some(i) => final(self).key_list() == old(self).key_list() && final(self).value_list()
                    == old(self).value_list().update(i, v) && r == Some(old(self).value_list()[i]),
                None => final(self).key_list() == old(self).key_list().push(k@)
                    && final(self).value_list() == old(self).value_list().push(v) && r is None,
            },
            final(self).key_list().no_duplicates(),
    {
        proof {
            lemma_first_index(self.key_list(), k@);
        }
        proof {
            use_type_invariant(&*self);
        }
        let pos = self.position(k.as_str());
        let mut es: Vec<(String, V)> = Vec::new();
        std::mem::swap(&mut es, &mut self.entries);
        proof {
            assert(es@.map_values(|e: (String, V)| e.0@) == old(self).key_list());
            assert(es@.map_values(|e: (String, V)| e.1) == old(self).value_list());
        }
        let ghost ks = old(self).key_list();
        let ghost vs = old(self).value_list();
        match pos {
            Some(i) => {
                let (name, old_v) = es.remove(i);
                es.insert(i, (name, v));
                proof {
                    assert(es@.map_values(|e: (String, V)| e.0@) =~= ks);
                    assert(es@.map_values(|e: (String, V)| e.1) =~= vs.update(i as int, v));
                }
                self.entries = es;
                Some(old_v)
            },
            None => {
                es.push((k, v));
                proof {
                    assert(es@.map_values(|e: (String, V)| e.0@) =~= ks.push(k@));
                    assert(es@.map_values(|e: (String, V)| e.1) =~= vs.push(v));
                    assert forall|a: int, b: int|
                        0 <= a < b < ks.push(k@).len() implies ks.push(k@)[a] != ks.push(k@)[b] by {
                        if b == ks.len() {
                            assert(ks[a] == ks.push(k@)[a]);
                        }
                    }
                }
                self.entries = es;
                None
            },
        }
    }

    /// The names, in entry order.
    pub fn keys(&self) -> (r: Vec<String>)
        ensures
            r@.map_values(|s: String| s@) == self.key_list(),
    {
        let mut r: Vec<String> = Vec::new();
        let mut i: usize = 0;
        while i < self.entries.len()
            invariant
                i <= self.entries@.len(),
                r@.len() == i,
                r@.map_values(|s: String| s@) == self.key_list().take(i as int),
            decreases self.entries.len() - i,
        {
            let s = self.entries[i].0.clone();
            let ghost old_r = r@;
            r.push(s);
            proof {
                assert forall|j: int| 0 <= j < i implies #[trigger] r@[j]@ == self.key_list()[j] by {
                    assert(r@[j] == old_r[j]);
                    assert(old_r.map_values(|s: String| s@)[j] == self.key_list().take(i as int)[j]);
                }
                assert(r@.map_values(|s: String| s@) =~= self.key_list().take(i + 1));
            }
            i = i + 1;
        }
        assert(self.key_list().take(i as int) =~= self.key_list());
        r
    }
}

impl<V: Clone> Clone for NamedMap<V> {
    /// A copy with the same names, in the same order, and each value cloned.
    fn clone(&self) -> (r: Self)
        ensures
            r.key_list() == self.key_list(),
            r.value_list().len() == self.value_list().len(),
    {
        proof {
            use_type_invariant(self);
        }
        let mut es: Vec<(String, V)> = Vec::new();
        let mut i: usize = 0;
        while i < self.entries.len()
            invariant
                i <= self.entries@.len(),
                es@.len() == i,
                forall|j: int| 0 <= j < i ==> (#[trigger] es@[j]).0@ == self.entries@[j].0@,
            decreases self.entries.len() - i,
        {
            let k = self.entries[i].0.clone();
            let v = self.entries[i].1.clone();
            es.push((k, v));
            i = i + 1;
        }
        let ghost ks = es@.map_values(|e: (String, V)| e.0@);
        assert(ks =~= self.key_list());
        NamedMap { entries: es }
    }
}

/// After an insert, the inserted name holds the inserted value and every
/// other name keeps its value.
pub proof fn lemma_insert_get<V>(before: NamedMap<V>, after: NamedMap<V>, k: Seq<char>, v: V, other: Seq<char>)
    requires
        match first_index(before.key_list(), k) {
            Some(i) => after.key_list() == before.key_list() && after.value_list()
                == before.value_list().update(i, v),
            None => after.key_list() == before.key_list().push(k) && after.value_list()
                == before.value_list().push(v),
        },
    ensures
        after.spec_get(k) == Some(v),
        other != k ==> after.spec_get(other) == before.spec_get(other),
{
    lemma_first_index(before.key_list(), k);
    lemma_first_index(after.key_list(), k);
    lemma_first_index(before.key_list(), other);
    lemma_first_index(after.key_list(), other);
    match first_index(before.key_list(), k) {
        Some(i) => {
            assert(before.value_list().len() == before.key_list().len());
        },
        None => {
            let n = before.key_list().len();
            assert(after.key_list()[n as int] == k);
            if first_index(after.key_list(), k).unwrap() < n {
                assert(before.key_list().contains(k));
            }
            if other != k {
                match first_index(before.key_list(), other) {
                    Some(j) => {
                        assert(after.key_list()[j] == other);
                        if first_index(after.key_list(), other).unwrap() < j {
                            let f = first_index(after.key_list(), other).unwrap();
                            assert(before.key_list()[f] == other);
                        }
                    },
                    None => {
                        if after.key_list().contains(other) {
                            let f = first_index(after.key_list(), other).unwrap();
                            assert(f != n);
                            assert(before.key_list()[f] == other);
                        }
                    },
                }
            }
        },
    }
}

} // verus!
