//! A finite map held as a list of entries with distinct keys, the associative
//! structure that every sub-ledger is built on.
use vstd::prelude::*;

verus! {

broadcast use vstd::array::group_array_axioms;

/// Keys that executable code can compare.
pub trait KeyEq: Sized + Copy {
    fn key_eq(&self, other: &Self) -> (r: bool)
        ensures
            r == (*self == *other),
    ;
}

impl KeyEq for u8 {
    fn key_eq(&self, other: &Self) -> (r: bool) {
        *self == *other
    }
}

impl KeyEq for [u8; 32] {
    fn key_eq(&self, other: &Self) -> (r: bool) {
        let mut i: usize = 0;
        while i < 32
            invariant
                0 <= i <= 32,
                forall|j: int| 0 <= j < i ==> self[j] == other[j],
            decreases 32 - i,
        {
            if self[i] != other[i] {
                return false;
            }
            i += 1;
        }
        proof {
            assert(*self =~= *other);
        }
        true
    }
}

/// Values that executable code can copy, keeping their view.
pub trait Dup: View + Sized {
    fn dup(&self) -> (r: Self)
        ensures
            r@ == self@,
    ;
}

impl Dup for [u8; 32] {
    fn dup(&self) -> (r: Self) {
        *self
    }
}

/// A key made of a digest and a one-byte index: an output of a transaction,
/// or a participant of a multisig declaration.
#[derive(Clone, Copy, Debug, PartialEq, Eq)]
pub struct IndexedKey {
    pub digest: [u8; 32],
    pub index: u8,
}

impl KeyEq for IndexedKey {
    fn key_eq(&self, other: &Self) -> (r: bool) {
        self.digest.key_eq(&other.digest) && self.index == other.index
    }
}

/// A map from keys to values; the entries keep the order in which keys were
/// first inserted.
#[derive(Clone, Debug)]
pub struct KeyMap<K, V> {
    entries: Vec<(K, V)>,
}

impl<K: KeyEq, V: View> KeyMap<K, V> {
    /// The entries, in order.
    pub closed spec fn seq(&self) -> Seq<(K, V)> {
        self.entries@
    }

    /// No key occurs twice.
    pub open spec fn wf(&self) -> bool {
        forall|i: int, j: int|
            0 <= i < self.seq().len() && 0 <= j < self.seq().len() && i != j ==> self.seq()[i].0
                != self.seq()[j].0
    }

    pub open spec fn has(&self, k: K) -> bool {
        exists|i: int| 0 <= i < self.seq().len() && self.seq()[i].0 == k
    }

    pub open spec fn index_of(&self, k: K) -> int {
        choose|i: int| 0 <= i < self.seq().len() && self.seq()[i].0 == k
    }

    /// The map that the entries stand for.
    pub open spec fn view(&self) -> Map<K, V::V> {
        Map::new(|k: K| self.has(k), |k: K| self.seq()[self.index_of(k)].1@)
    }

    /// In a well-formed map, the entry at `i` gives its key's value.
    pub proof fn lemma_entry(&self, i: int)
        requires
            self.wf(),
            0 <= i < self.seq().len(),
        ensures
            self.index_of(self.seq()[i].0) == i,
            self@.contains_key(self.seq()[i].0),
            self@[self.seq()[i].0] == self.seq()[i].1@,
    {
        let k = self.seq()[i].0;
        assert(self.has(k));
        let j = self.index_of(k);
        assert(self.seq()[j].0 == k);
    }

    pub fn new() -> (r: Self)
        ensures
            r.wf(),
            r.seq().len() == 0,
            r@ == Map::<K, V::V>::empty(),
    {
        let r = KeyMap { entries: Vec::new() };
        assert(r@ =~= Map::<K, V::V>::empty());
        r
    }

    pub fn len(&self) -> (r: usize)
        ensures
            r == self.seq().len(),
    {
        self.entries.len()
    }

    /// The entry at position `i`.
    pub fn entry(&self, i: usize) -> (r: &(K, V))
        requires
            i < self.seq().len(),
        ensures
            *r == self.seq()[i as int],
    {
        &self.entries[i]
    }

    /// The position of the entry with key `k`, if there is one.
    pub fn find(&self, k: &K) -> (r: Option<usize>)
        requires
            self.wf(),
        ensures
            r.is_none() <==> !self@.contains_key(*k),
            r matches Some(i) ==> i < self.seq().len() && self.seq()[i as int].0 == *k
                && self@[*k] == self.seq()[i as int].1@,
    {
        let mut i: usize = 0;
        while i < self.entries.len()
            invariant
                0 <= i <= self.seq().len(),
                self.wf(),
                self.seq() == self.entries@,
                forall|j: int| 0 <= j < i ==> self.seq()[j].0 != *k,
            decreases self.seq().len() - i,
        {
            if self.entries[i].0.key_eq(k) {
                proof {
                    self.lemma_entry(i as int);
                }
                return Some(i);
            }
            i += 1;
        }
        None
    }

    pub fn contains_key(&self, k: &K) -> (r: bool)
        requires
            self.wf(),
        ensures
            r == self@.contains_key(*k),
    {
        self.find(k).is_some()
    }

    pub fn get(&self, k: &K) -> (r: Option<&V>)
        requires
            self.wf(),
        ensures
            r.is_none() <==> !self@.contains_key(*k),
            r matches Some(v) ==> v@ == self@[*k],
    {
        match self.find(k) {
            Some(i) => Some(&self.entries[i].1),
            None => None,
        }
    }

    /// Adds an entry for a key that is not in the map yet.
    pub fn insert_new(&mut self, k: K, v: V)
        requires
            old(self).wf(),
            !old(self)@.contains_key(k),
        ensures
            final(self).wf(),
            final(self)@ == old(self)@.insert(k, v@),
            final(self).seq() == old(self).seq().push((k, v)),
    {
        let ghost pre = *self;
        self.entries.push((k, v));
        proof {
            let n = pre.seq().len() as int;
            assert forall|i: int| 0 <= i < n implies self.seq()[i] == pre.seq()[i] by {}
            assert(self.seq()[n] == (k, v));
            assert forall|q: K| self.has(q) <==> pre.has(q) || q == k by {
                if pre.has(q) {
                    let i = pre.index_of(q);
                    assert(self.seq()[i].0 == q);
                }
                if q == k {
                    assert(self.seq()[n].0 == q);
                }
                if self.has(q) && q != k {
                    let i = self.index_of(q);
                    assert(pre.seq()[i].0 == q);
                }
            }
            assert forall|q: K| #![auto] pre.has(q) implies self.index_of(q) == pre.index_of(q) by {
                let i = pre.index_of(q);
                assert(self.seq()[i].0 == q);
                self.lemma_entry(i);
            }
            self.lemma_entry(n);
            assert(self@ =~= pre@.insert(k, v@));
        }
    }

    /// Adds an entry for a new key at position `p`.
    pub fn insert_at(&mut self, p: usize, k: K, v: V)
        requires
            old(self).wf(),
            !old(self)@.contains_key(k),
            p <= old(self).seq().len(),
        ensures
            final(self).wf(),
            final(self)@ == old(self)@.insert(k, v@),
            final(self).seq() == old(self).seq().insert(p as int, (k, v)),
    {
        let ghost pre = *self;
        self.entries.insert(p, (k, v));
        proof {
            let n = pre.seq().len() as int;
            assert forall|i: int| 0 <= i < p implies self.seq()[i] == pre.seq()[i] by {}
            assert forall|i: int| p < i <= n implies self.seq()[i] == pre.seq()[i - 1] by {}
            assert forall|a: int, b: int|
                0 <= a < self.seq().len() && 0 <= b < self.seq().len() && a != b implies self.seq()[a].0
                != self.seq()[b].0 by {
                if a != p && b != p {
                    let a2 = if a < p { a } else { a - 1 };
                    let b2 = if b < p { b } else { b - 1 };
                    assert(self.seq()[a] == pre.seq()[a2]);
                    assert(self.seq()[b] == pre.seq()[b2]);
                } else if a == p {
                    let b2 = if b < p { b } else { b - 1 };
                    assert(self.seq()[b] == pre.seq()[b2]);
                    pre.lemma_entry(b2);
                } else {
                    let a2 = if a < p { a } else { a - 1 };
                    assert(self.seq()[a] == pre.seq()[a2]);
                    pre.lemma_entry(a2);
                }
            }
            assert forall|q: K| self.has(q) <==> pre.has(q) || q == k by {
                if pre.has(q) {
                    let i = pre.index_of(q);
                    if i < p {
                        assert(self.seq()[i].0 == q);
                    } else {
                        assert(self.seq()[i + 1].0 == q);
                    }
                }
                if q == k {
                    assert(self.seq()[p as int].0 == q);
                }
                if self.has(q) && q != k {
                    let i = self.index_of(q);
                    let i2 = if i < p { i } else { i - 1 };
                    assert(pre.seq()[i2].0 == q);
                }
            }
            assert forall|q: K| #![auto] pre.has(q) implies self@[q] == pre@[q] by {
                let i = pre.index_of(q);
                pre.lemma_entry(i);
                let i2 = if i < p { i } else { i + 1 };
                assert(self.seq()[i2] == pre.seq()[i]);
                self.lemma_entry(i2);
            }
            self.lemma_entry(p as int);
            assert(self@ =~= pre@.insert(k, v@));
        }
    }

    /// Replaces the value of the entry at position `i`.
    pub fn set_at(&mut self, i: usize, v: V)
        requires
            old(self).wf(),
            i < old(self).seq().len(),
        ensures
            final(self).wf(),
            final(self)@ == old(self)@.insert(old(self).seq()[i as int].0, v@),
            final(self).seq() == old(self).seq().update(i as int, (old(self).seq()[i as int].0, v)),
    {
        let ghost pre = *self;
        let k = self.entries[i].0;
        self.entries.set(i, (k, v));
        proof {
            assert forall|q: K| self.has(q) <==> pre.has(q) by {
                if pre.has(q) {
                    let j = pre.index_of(q);
                    assert(self.seq()[j].0 == q);
                }
                if self.has(q) {
                    let j = self.index_of(q);
                    assert(pre.seq()[j].0 == q);
                }
            }
            assert forall|q: K| #![auto] pre.has(q) implies self.index_of(q) == pre.index_of(q) by {
                let j = pre.index_of(q);
                pre.lemma_entry(j);
                assert(self.seq()[j].0 == q);
                self.lemma_entry(j);
            }
            self.lemma_entry(i as int);
            assert(self@ =~= pre@.insert(k, v@));
        }
    }

    /// Removes the entry at position `i`, handing back its value.
    pub fn remove_at(&mut self, i: usize) -> (r: V)
        requires
            old(self).wf(),
            i < old(self).seq().len(),
        ensures
            final(self).wf(),
            r == old(self).seq()[i as int].1,
            final(self)@ == old(self)@.remove(old(self).seq()[i as int].0),
            final(self).seq() == old(self).seq().remove(i as int),
    {
        let ghost pre = *self;
        let (k, v) = self.entries.remove(i);
        proof {
            let n = pre.seq().len() as int;
            assert forall|a: int, b: int|
                0 <= a < self.seq().len() && 0 <= b < self.seq().len() && a != b implies self.seq()[a].0
                != self.seq()[b].0 by {
                let a2 = if a < i { a } else { a + 1 };
                let b2 = if b < i { b } else { b + 1 };
                assert(self.seq()[a] == pre.seq()[a2]);
                assert(self.seq()[b] == pre.seq()[b2]);
            }
            assert forall|q: K| self.has(q) <==> (pre.has(q) && q != k) by {
                if pre.has(q) && q != k {
                    let j = pre.index_of(q);
                    assert(j != i);
                    if j < i {
                        assert(self.seq()[j].0 == q);
                    } else {
                        assert(self.seq()[j - 1].0 == q);
                    }
                }
                if self.has(q) {
                    let j = self.index_of(q);
                    let j2 = if j < i { j } else { j + 1 };
                    assert(pre.seq()[j2].0 == q);
                    assert(j2 != i);
                }
            }
            assert forall|q: K| #![auto] self.has(q) implies self@[q] == pre@[q] by {
                let j = self.index_of(q);
                let j2 = if j < i { j } else { j + 1 };
                assert(pre.seq()[j2] == self.seq()[j]);
                pre.lemma_entry(j2);
            }
            assert(self@ =~= pre@.remove(k));
        }
        v
    }

    pub fn dup(&self) -> (r: Self)
        where V: Dup,
        requires
            self.wf(),
        ensures
            r.wf(),
            r@ == self@,
            r.seq().len() == self.seq().len(),
            forall|i: int| 0 <= i < self.seq().len() ==> #[trigger] r.seq()[i].0 == self.seq()[i].0
                && r.seq()[i].1@ == self.seq()[i].1@,
    {
        let mut entries: Vec<(K, V)> = Vec::new();
        let mut i: usize = 0;
        while i < self.entries.len()
            invariant
                0 <= i <= self.seq().len(),
                self.seq() == self.entries@,
                entries@.len() == i,
                forall|j: int| 0 <= j < i ==> #[trigger] entries@[j].0 == self.seq()[j].0
                    && entries@[j].1@ == self.seq()[j].1@,
            decreases self.seq().len() - i,
        {
            let e = &self.entries[i];
            entries.push((e.0, e.1.dup()));
            i += 1;
        }
        let r = KeyMap { entries };
        proof {
            assert forall|q: K| r.has(q) <==> self.has(q) by {
                if r.has(q) {
                    let j = r.index_of(q);
                    assert(self.seq()[j].0 == q);
                }
                if self.has(q) {
                    let j = self.index_of(q);
                    assert(r.seq()[j].0 == q);
                }
            }
            assert forall|a: int, b: int|
                0 <= a < r.seq().len() && 0 <= b < r.seq().len() && a != b implies r.seq()[a].0
                != r.seq()[b].0 by {
                assert(r.seq()[a].0 == self.seq()[a].0);
                assert(r.seq()[b].0 == self.seq()[b].0);
            }
            assert forall|q: K| #![auto] r.has(q) implies r@[q] == self@[q] by {
                let j = r.index_of(q);
                assert(self.seq()[j].0 == q);
                self.lemma_entry(j);
                r.lemma_entry(j);
            }
            assert(r@ =~= self@);
        }
        r
    }
}

} // verus!
