//! The unspent-output sub-ledger, generic over the address type.
use vstd::prelude::*;
use crate::keymap::{IndexedKey, KeyMap};
use crate::transaction::{Output, TransactionId};
use crate::value::{lemma_sum_values_push, lemma_sum_values_remove, sum_values, Value};

verus! {

#[derive(Clone, Copy, Debug, PartialEq, Eq, Structural)]
pub enum Error {
    NotFound,
    AlreadyExists,
}

/// Unspent outputs, keyed by transaction id and output index.
#[derive(Clone, Debug)]
pub struct Ledger<A> {
    pub outputs: KeyMap<IndexedKey, Output<A>>,
}

pub open spec fn utxo_key(txid: TransactionId, index: u8) -> IndexedKey {
    IndexedKey { digest: txid, index }
}

/// `m` with the outputs `outs` of transaction `txid` added, in order.
pub open spec fn with_outputs<A>(
    m: Map<IndexedKey, Output<A>>,
    txid: TransactionId,
    outs: Seq<(u8, Output<A>)>,
) -> Map<IndexedKey, Output<A>>
    decreases outs.len(),
{
    if outs.len() == 0 {
        m
    } else {
        with_outputs(m, txid, outs.drop_last()).insert(utxo_key(txid, outs.last().0), outs.last().1)
    }
}

/// The values of a list of indexed outputs.
pub open spec fn indexed_values<A>(outs: Seq<(u8, Output<A>)>) -> Seq<Value> {
    outs.map_values(|o: (u8, Output<A>)| o.1.value)
}

/// No two outputs share an index.
pub open spec fn distinct_indices<A>(outs: Seq<(u8, Output<A>)>) -> bool {
    forall|i: int, j: int| 0 <= i < outs.len() && 0 <= j < outs.len() && i != j ==> outs[i].0 != outs[j].0
}

impl<A: Copy> Ledger<A> {
    pub open spec fn wf(&self) -> bool {
        self.outputs.wf()
    }

    pub open spec fn view(&self) -> Map<IndexedKey, Output<A>> {
        self.outputs@
    }

    /// Some output of transaction `txid` is unspent.
    pub open spec fn has_transaction(&self, txid: TransactionId) -> bool {
        exists|k: IndexedKey| self@.contains_key(k) && k.digest == txid
    }

    /// The values of all unspent outputs, in order.
    pub open spec fn values(&self) -> Seq<Value> {
        self.outputs.seq().map_values(|e: (IndexedKey, Output<A>)| e.1.value)
    }

    pub fn new() -> (r: Self)
        ensures
            r.wf(),
            r@ == Map::<IndexedKey, Output<A>>::empty(),
            r.values().len() == 0,
    {
        Ledger { outputs: KeyMap::new() }
    }

    pub fn dup(&self) -> (r: Self)
        requires
            self.wf(),
        ensures
            r.wf(),
            r@ == self@,
            r.values() == self.values(),
    {
        let r = Ledger { outputs: self.outputs.dup() };
        assert forall|i: int| 0 <= i < self.values().len() implies r.values()[i] == self.values()[i] by {
            assert(r.outputs.seq()[i].0 == self.outputs.seq()[i].0);
        }
        assert(r.values() =~= self.values());
        r
    }

    fn contains_transaction(&self, txid: &TransactionId) -> (r: bool)
        requires
            self.wf(),
        ensures
            r == self.has_transaction(*txid),
    {
        let n = self.outputs.len();
        let mut i: usize = 0;
        while i < n
            invariant
                0 <= i <= n,
                n == self.outputs.seq().len(),
                self.wf(),
                forall|j: int| 0 <= j < i ==> self.outputs.seq()[j].0.digest != *txid,
            decreases n - i,
        {
            let e = self.outputs.entry(i);
            if crate::keymap::KeyEq::key_eq(&e.0.digest, txid) {
                proof {
                    self.outputs.lemma_entry(i as int);
                    assert(self@.contains_key(e.0) && e.0.digest == *txid);
                }
                return true;
            }
            i += 1;
        }
        proof {
            if self.has_transaction(*txid) {
                let k = choose|k: IndexedKey| self@.contains_key(k) && k.digest == *txid;
                let j = self.outputs.index_of(k);
            }
        }
        false
    }

    /// Adds the outputs of transaction `txid`; fails when that transaction
    /// already has unspent outputs or two of `outs` share an index.
    pub fn add(self, txid: &TransactionId, outs: &Vec<(u8, Output<A>)>) -> (r: Result<Self, Error>)
        requires
            self.wf(),
        ensures
            r is Err <==> (self.has_transaction(*txid) || !distinct_indices(outs@)),
            r is Err ==> r == Err::<Self, Error>(Error::AlreadyExists),
            r matches Ok(l) ==> l.wf() && l@ == with_outputs(self@, *txid, outs@) && sum_values(l.values())
                == sum_values(self.values()) + sum_values(indexed_values(outs@)),
    {
        if self.contains_transaction(txid) {
            return Err(Error::AlreadyExists);
        }
        let ghost pre = self@;
        let ghost pre_values = self.values();
        let mut l = self;
        proof {
            assert(indexed_values(outs@.subrange(0, 0)) =~= Seq::<Value>::empty());
        }
        let mut i: usize = 0;
        while i < outs.len()
            invariant
                0 <= i <= outs@.len(),
                l.wf(),
                !(exists|k: IndexedKey| pre.contains_key(k) && k.digest == *txid),
                distinct_indices(outs@.subrange(0, i as int)),
                l@ == with_outputs(pre, *txid, outs@.subrange(0, i as int)),
                forall|k: IndexedKey| #[trigger] l@.contains_key(k) && k.digest == *txid ==> exists|j: int|
                    0 <= j < i && outs@[j].0 == k.index,
                forall|j: int| 0 <= j < i ==> l@.contains_key(#[trigger] utxo_key(*txid, outs@[j].0)),
                sum_values(l.values()) == sum_values(pre_values) + sum_values(indexed_values(outs@.subrange(0, i as int))),
            decreases outs@.len() - i,
        {
            let (index, output) = outs[i];
            let key = IndexedKey { digest: *txid, index };
            proof {
                assert(outs@.subrange(0, i + 1).drop_last() == outs@.subrange(0, i as int));
            }
            if l.outputs.contains_key(&key) {
                proof {
                    let j = choose|j: int| 0 <= j < i && outs@[j].0 == key.index;
                    assert(outs@[j].0 == outs@[i as int].0);
                }
                return Err(Error::AlreadyExists);
            }
            let ghost before = l@;
            let ghost before_values = l.values();
            l.outputs.insert_new(key, output);
            proof {
                assert(l.values() =~= before_values.push(output.value));
                lemma_sum_values_push(before_values, output.value);
                assert(indexed_values(outs@.subrange(0, i + 1)) =~= indexed_values(outs@.subrange(0, i as int)).push(output.value));
                lemma_sum_values_push(indexed_values(outs@.subrange(0, i as int)), output.value);
                let s = outs@.subrange(0, i + 1);
                assert forall|a: int, b: int| 0 <= a < s.len() && 0 <= b < s.len() && a != b implies s[a].0 != s[b].0 by {
                    if a == i {
                        assert(before.contains_key(utxo_key(*txid, outs@[b].0)));
                    } else if b == i {
                        assert(before.contains_key(utxo_key(*txid, outs@[a].0)));
                    } else {
                        assert(s[a] == outs@.subrange(0, i as int)[a]);
                        assert(s[b] == outs@.subrange(0, i as int)[b]);
                    }
                }
                assert forall|j: int| 0 <= j < i + 1 implies l@.contains_key(#[trigger] utxo_key(*txid, outs@[j].0)) by {
                    if j < i {
                        assert(before.contains_key(utxo_key(*txid, outs@[j].0)));
                    }
                }
                assert forall|k: IndexedKey| #[trigger] l@.contains_key(k) && k.digest == *txid implies exists|j: int|
                    0 <= j < i + 1 && outs@[j].0 == k.index by {
                    if k != key {
                    } else {
                        assert(outs@[i as int].0 == k.index);
                    }
                }
            }
            i += 1;
        }
        proof {
            assert(outs@.subrange(0, outs@.len() as int) == outs@);
        }
        Ok(l)
    }

    /// Spends output `index` of transaction `txid`, handing it back.
    pub fn remove(self, txid: &TransactionId, index: u8) -> (r: Result<(Self, Output<A>), Error>)
        requires
            self.wf(),
        ensures
            r is Err <==> !self@.contains_key(utxo_key(*txid, index)),
            r is Err ==> r == Err::<(Self, Output<A>), Error>(Error::NotFound),
            r matches Ok((l, o)) ==> l.wf() && o == self@[utxo_key(*txid, index)] && l@ == self@.remove(
                utxo_key(*txid, index),
            ) && sum_values(l.values()) == sum_values(self.values()) - o.value.0,
    {
        let key = IndexedKey { digest: *txid, index };
        match self.outputs.find(&key) {
            None => Err(Error::NotFound),
            Some(i) => {
                let ghost pre = self;
                let mut l = self;
                let o = l.outputs.remove_at(i);
                proof {
                    assert(l.values() =~= pre.values().remove(i as int));
                    lemma_sum_values_remove(pre.values(), i as int);
                }
                Ok((l, o))
            },
        }
    }

    /// The values of all unspent outputs, in order.
    pub fn values_vec(&self) -> (r: Vec<Value>)
        ensures
            r@ == self.values(),
    {
        let mut v: Vec<Value> = Vec::new();
        let mut i: usize = 0;
        while i < self.outputs.len()
            invariant
                0 <= i <= self.outputs.seq().len(),
                v@ == self.values().subrange(0, i as int),
            decreases self.outputs.seq().len() - i,
        {
            v.push(self.outputs.entry(i).1.value);
            proof {
                assert(v@ =~= self.values().subrange(0, i + 1));
            }
            i += 1;
        }
        proof {
            assert(v@ =~= self.values());
        }
        v
    }

    /// All unspent outputs with their keys, in order.
    pub fn iter(&self) -> (r: Vec<(IndexedKey, Output<A>)>)
        ensures
            r@ == self.outputs.seq(),
    {
        let mut v: Vec<(IndexedKey, Output<A>)> = Vec::new();
        let mut i: usize = 0;
        while i < self.outputs.len()
            invariant
                0 <= i <= self.outputs.seq().len(),
                v@ == self.outputs.seq().subrange(0, i as int),
            decreases self.outputs.seq().len() - i,
        {
            let e = self.outputs.entry(i);
            v.push((e.0, e.1));
            proof {
                assert(v@ =~= self.outputs.seq().subrange(0, i + 1));
            }
            i += 1;
        }
        proof {
            assert(v@ =~= self.outputs.seq());
        }
        v
    }
}

} // verus!
