//! A map keyed by byte strings, held as a list of distinct keys with their
//! values.

use vstd::prelude::*;
use crate::bytes::bytes_eq;

verus! {

/// Some pair of `e` has the key `k`.
pub open spec fn has_key<V>(e: Seq<(Seq<u8>, V)>, k: Seq<u8>) -> bool {
    exists|i: int| 0 <= i < e.len() && (#[trigger] e[i]).0 == k
}

/// The position of a pair with the key `k` in `e`.
pub open spec fn key_index<V>(e: Seq<(Seq<u8>, V)>, k: Seq<u8>) -> int {
    choose|i: int| 0 <= i < e.len() && (#[trigger] e[i]).0 == k
}

/// No two pairs of `e` share a key.
pub open spec fn keys_distinct<V>(e: Seq<(Seq<u8>, V)>) -> bool {
    forall|i: int, j: int|
        0 <= i < e.len() && 0 <= j < e.len() && i != j ==> (#[trigger] e[i]).0 != (
        #[trigger] e[j]).0
}

/// The map that holds each value of `e` under its key.
pub open spec fn assoc_map<V>(e: Seq<(Seq<u8>, V)>) -> Map<Seq<u8>, V> {
    Map::new(|k: Seq<u8>| has_key(e, k), |k: Seq<u8>| e[key_index(e, k)].1)
}

/// In a list of distinct keys, each pair is found at its own position.
pub proof fn lemma_key_index<V>(e: Seq<(Seq<u8>, V)>, i: int)
    requires
        keys_distinct(e),
        0 <= i < e.len(),
    ensures
        key_index(e, e[i].0) == i,
        assoc_map(e).contains_key(e[i].0),
        assoc_map(e)[e[i].0] == e[i].1,
{
    let j = key_index(e, e[i].0);
    assert(e[i].0 == e[i].0);
    assert(0 <= j < e.len() && e[j].0 == e[i].0);
}

/// Adding a pair with a new key stores its value under that key.
pub proof fn lemma_assoc_push<V>(e: Seq<(Seq<u8>, V)>, k: Seq<u8>, v: V)
    requires
        keys_distinct(e),
        !has_key(e, k),
    ensures
        keys_distinct(e.push((k, v))),
        assoc_map(e.push((k, v))) == assoc_map(e).insert(k, v),
{
    let after = e.push((k, v));
    assert forall|i: int, j: int|
        0 <= i < after.len() && 0 <= j < after.len() && i != j implies (#[trigger] after[i]).0 != (
    #[trigger] after[j]).0 by {
        if i < e.len() && j < e.len() {
            assert(e[i].0 != e[j].0);
        } else if i < e.len() {
            assert(e[i].0 == after[i].0);
        } else {
            assert(e[j].0 == after[j].0);
        }
    }
    assert forall|x: Seq<u8>| has_key(after, x) <==> (has_key(e, x) || x == k) by {
        if has_key(after, x) {
            let j = choose|j: int| 0 <= j < after.len() && (#[trigger] after[j]).0 == x;
            if j < e.len() {
                assert(e[j].0 == x);
            }
        }
        if has_key(e, x) {
            let j = choose|j: int| 0 <= j < e.len() && (#[trigger] e[j]).0 == x;
            assert(after[j].0 == x);
        }
        if x == k {
            assert(after[e.len() as int].0 == x);
        }
    }
    assert forall|x: Seq<u8>| has_key(after, x) implies #[trigger] assoc_map(after)[x] == (if x
        == k {
        v
    } else {
        assoc_map(e)[x]
    }) by {
        let j = key_index(after, x);
        if x != k {
            assert(e[j].0 == x);
            lemma_key_index(e, j);
        } else {
            lemma_key_index(after, e.len() as int);
        }
    }
    assert(assoc_map(after) =~= assoc_map(e).insert(k, v));
}

/// Taking a pair out takes its key out of the map.
pub proof fn lemma_assoc_remove<V>(e: Seq<(Seq<u8>, V)>, i: int)
    requires
        keys_distinct(e),
        0 <= i < e.len(),
    ensures
        keys_distinct(e.remove(i)),
        !has_key(e.remove(i), e[i].0),
        assoc_map(e.remove(i)) == assoc_map(e).remove(e[i].0),
{
    let after = e.remove(i);
    let k = e[i].0;
    assert forall|a: int, b: int|
        0 <= a < after.len() && 0 <= b < after.len() && a != b implies (#[trigger] after[a]).0 != (
    #[trigger] after[b]).0 by {
        let a0 = if a < i { a } else { a + 1 };
        let b0 = if b < i { b } else { b + 1 };
        assert(after[a] == e[a0] && after[b] == e[b0]);
    }
    assert forall|x: Seq<u8>| has_key(after, x) <==> (has_key(e, x) && x != k) by {
        if has_key(after, x) {
            let j = choose|j: int| 0 <= j < after.len() && (#[trigger] after[j]).0 == x;
            let j0 = if j < i { j } else { j + 1 };
            assert(e[j0].0 == x);
            assert(e[j0].0 != e[i].0);
        }
        if has_key(e, x) && x != k {
            let j = choose|j: int| 0 <= j < e.len() && (#[trigger] e[j]).0 == x;
            let j1 = if j < i { j } else { j - 1 };
            assert(after[j1].0 == x);
        }
    }
    assert forall|x: Seq<u8>| has_key(after, x) implies #[trigger] assoc_map(after)[x]
        == assoc_map(e)[x] by {
        let j = key_index(after, x);
        let j0 = if j < i { j } else { j + 1 };
        assert(e[j0].0 == x);
        lemma_key_index(e, j0);
    }
    assert(assoc_map(after) =~= assoc_map(e).remove(k));
}

/// A map from byte strings to values of type `V`.
pub struct ByteMap<V> {
    entries: Vec<(Vec<u8>, V)>,
}

impl<V> View for ByteMap<V> {
    type V = Map<Seq<u8>, V>;

    open spec fn view(&self) -> Map<Seq<u8>, V> {
        assoc_map(self.pairs())
    }
}

impl<V> ByteMap<V> {
    /// The keys with their values, in the order in which they are held.
    pub closed spec fn pairs(&self) -> Seq<(Seq<u8>, V)> {
        self.entries@.map_values(|p: (Vec<u8>, V)| (p.0@, p.1))
    }

    /// No key is held twice.
    pub open spec fn wf(&self) -> bool {
        keys_distinct(self.pairs())
    }

    /// An empty map.
    pub fn new() -> (map: ByteMap<V>)
        ensures
            map.wf(),
            map@ == Map::<Seq<u8>, V>::empty(),
    {
        let map = ByteMap { entries: Vec::new() };
        assert(map@ =~= Map::<Seq<u8>, V>::empty());
        map
    }

    fn position(&self, key: &[u8]) -> (at: Option<usize>)
        ensures
            match at {
                Some(i) => i < self.pairs().len() && self.pairs()[i as int].0 == key@,
                None => !has_key(self.pairs(), key@),
            },
    {
        let mut i: usize = 0;
        while i < self.entries.len()
            invariant
                i <= self.entries.len(),
                forall|k: int| 0 <= k < i ==> (#[trigger] self.pairs()[k]).0 != key@,
            decreases self.entries.len() - i,
        {
            if bytes_eq(self.entries[i].0.as_slice(), key) {
                return Some(i);
            }
            i = i + 1;
        }
        None
    }

    /// Tells whether a value is stored under `key`.
    pub fn contains_key(&self, key: &[u8]) -> (found: bool)
        requires
            self.wf(),
        ensures
            found == self@.contains_key(key@),
    {
        match self.position(key) {
            Some(i) => {
                proof {
                    lemma_key_index(self.pairs(), i as int);
                }
                true
            },
            None => false,
        }
    }

    /// The value stored under `key`, if there is one.
    pub fn get(&self, key: &[u8]) -> (found: Option<&V>)
        requires
            self.wf(),
        ensures
            match found {
                Some(v) => self@.contains_key(key@) && self@[key@] == *v,
                None => !self@.contains_key(key@),
            },
    {
        match self.position(key) {
            Some(i) => {
                proof {
                    lemma_key_index(self.pairs(), i as int);
                }
                Some(&self.entries[i].1)
            },
            None => None,
        }
    }

    /// Stores `value` under `key`, in place of any value that was there.
    pub fn insert(&mut self, key: Vec<u8>, value: V)
        requires
            old(self).wf(),
        ensures
            final(self).wf(),
            final(self)@ == old(self)@.insert(key@, value),
    {
        let ghost before = self.pairs();
        match self.position(key.as_slice()) {
            Some(i) => {
                self.entries.remove(i);
                proof {
                    assert(self.pairs() =~= before.remove(i as int));
                    lemma_assoc_remove(before, i as int);
                }
            },
            None => {},
        }
        let ghost middle = self.pairs();
        self.entries.push((key, value));
        proof {
            assert(self.pairs() =~= middle.push((key@, value)));
            lemma_assoc_push(middle, key@, value);
            assert(assoc_map(middle).insert(key@, value) =~= assoc_map(before).insert(
                key@,
                value,
            ));
        }
    }

    /// Takes out the value stored under `key`, if there is one.
    pub fn remove(&mut self, key: &[u8])
        requires
            old(self).wf(),
        ensures
            final(self).wf(),
            final(self)@ == old(self)@.remove(key@),
    {
        let ghost before = self.pairs();
        match self.position(key) {
            Some(i) => {
                self.entries.remove(i);
                proof {
                    assert(self.pairs() =~= before.remove(i as int));
                    lemma_assoc_remove(before, i as int);
                }
            },
            None => {
                assert(assoc_map(before) =~= assoc_map(before).remove(key@));
            },
        }
    }
}

} // verus!
