//! The multisig sub-ledger: accounts spent by a threshold of participants.
use vstd::prelude::*;
use crate::crypto::{ed25519_accepts, ed25519_verify, Digest, PublicKey, Signature};
use crate::keymap::{Dup, IndexedKey, KeyMap};
use crate::account::next_counter;
use crate::transaction::SpendingCounter;
use crate::value::{lemma_sum_values_push, lemma_sum_values_update, sum_values, Value, ValueError};

verus! {

pub type Identifier = Digest;

/// How a multisig account authorises spending: `threshold` of the `owners`,
/// each named by its position.
#[derive(Clone, Debug, PartialEq, Eq)]
pub struct Declaration {
    pub threshold: u8,
    pub owners: Vec<PublicKey>,
}

#[derive(Clone, Copy, Debug, PartialEq, Eq)]
pub struct MultisigAccount {
    pub value: Value,
    pub counter: SpendingCounter,
    pub threshold: u8,
    pub participants: u8,
}

impl View for MultisigAccount {
    type V = MultisigAccount;

    open spec fn view(&self) -> MultisigAccount {
        *self
    }
}

impl Dup for MultisigAccount {
    fn dup(&self) -> (r: Self) {
        *self
    }
}

#[derive(Clone, Copy, Debug, PartialEq, Eq, Structural)]
pub enum LedgerError {
    NonExistent,
    AlreadyExists,
    InsufficientFunds,
    /// The spending counter is at its largest value: no further spend can be
    /// signed over a fresh counter.
    SpendingCounterExhausted,
    ThresholdInvalid,
    TooManyParticipants,
    ValueError(ValueError),
}

#[derive(Clone, Debug)]
pub struct Ledger {
    pub accounts: KeyMap<Identifier, MultisigAccount>,
    /// The key of each participant, by account and position.
    pub participants: KeyMap<IndexedKey, PublicKey>,
}

pub open spec fn participant_key(id: Identifier, index: u8) -> IndexedKey {
    IndexedKey { digest: id, index }
}

/// One participant signature: the index names a participant of account
/// `id`, and the signature verifies `data` under that participant's key.
pub open spec fn participant_signed(
    accounts: Map<Identifier, MultisigAccount>,
    keys: Map<IndexedKey, Seq<u8>>,
    id: Identifier,
    s: (u8, Signature),
    data: Seq<u8>,
) -> bool {
    &&& s.0 < accounts[id].participants
    &&& ed25519_accepts(data, keys[participant_key(id, s.0)], s.1@)
}

/// A multisig signature authorises `data` for account `id`: at least
/// threshold signatures, by distinct participants, all of them valid.
pub open spec fn msig_accepts(
    accounts: Map<Identifier, MultisigAccount>,
    keys: Map<IndexedKey, Seq<u8>>,
    id: Identifier,
    sigs: Seq<(u8, Signature)>,
    data: Seq<u8>,
) -> bool {
    &&& sigs.len() >= accounts[id].threshold
    &&& forall|i: int, j: int| 0 <= i < sigs.len() && 0 <= j < sigs.len() && i != j ==> sigs[i].0 != sigs[j].0
    &&& forall|i: int| 0 <= i < sigs.len() ==> participant_signed(accounts, keys, id, #[trigger] sigs[i], data)
}

impl Ledger {
    pub open spec fn wf(&self) -> bool {
        &&& self.accounts.wf()
        &&& self.participants.wf()
        &&& forall|id: Identifier, i: u8| #[trigger] self.accounts@.contains_key(id) && i < self.accounts@[id].participants
            ==> self.participants@.contains_key(#[trigger] participant_key(id, i))
        &&& forall|k: IndexedKey| #[trigger] self.participants@.contains_key(k) ==> self.accounts@.contains_key(k.digest)
            && k.index < self.accounts@[k.digest].participants
    }

    pub open spec fn view(&self) -> Map<Identifier, MultisigAccount> {
        self.accounts@
    }

    pub open spec fn values(&self) -> Seq<Value> {
        self.accounts.seq().map_values(|e: (Identifier, MultisigAccount)| e.1.value)
    }

    pub open spec fn participant_signed(&self, id: Identifier, s: (u8, Signature), data: Seq<u8>) -> bool {
        participant_signed(self@, self.participants@, id, s, data)
    }

    pub open spec fn accepts(&self, id: Identifier, sigs: Seq<(u8, Signature)>, data: Seq<u8>) -> bool {
        msig_accepts(self@, self.participants@, id, sigs, data)
    }

    pub fn new() -> (r: Self)
        ensures
            r.wf(),
            r@ == Map::<Identifier, MultisigAccount>::empty(),
            r.values().len() == 0,
    {
        let r = Ledger { accounts: KeyMap::new(), participants: KeyMap::new() };
        r
    }

    pub fn dup(&self) -> (r: Self)
        requires
            self.wf(),
        ensures
            r.wf(),
            r@ == self@,
            r.participants@ == self.participants@,
            r.values() == self.values(),
    {
        let r = Ledger { accounts: self.accounts.dup(), participants: self.participants.dup() };
        assert forall|i: int| 0 <= i < self.values().len() implies r.values()[i] == self.values()[i] by {
            assert(r.accounts.seq()[i].0 == self.accounts.seq()[i].0);
        }
        assert(r.values() =~= self.values());
        r
    }

    /// Creates an account from its declaration, with a zero balance.
    pub fn add_account(self, id: &Identifier, decl: &Declaration) -> (r: Result<Self, LedgerError>)
        requires
            self.wf(),
        ensures
            self@.contains_key(*id) ==> r == Err::<Self, LedgerError>(LedgerError::AlreadyExists),
            !self@.contains_key(*id) && decl.owners@.len() > 255 ==> r == Err::<Self, LedgerError>(
                LedgerError::TooManyParticipants,
            ),
            !self@.contains_key(*id) && decl.owners@.len() <= 255 && (decl.threshold == 0 || decl.threshold
                > decl.owners@.len()) ==> r == Err::<Self, LedgerError>(LedgerError::ThresholdInvalid),
            !self@.contains_key(*id) && decl.owners@.len() <= 255 && 0 < decl.threshold <= decl.owners@.len() ==> (r matches Ok(l)
                && l.wf() && l@ == self@.insert(
                *id,
                MultisigAccount {
                    value: Value(0),
                    counter: 0,
                    threshold: decl.threshold,
                    participants: decl.owners@.len() as u8,
                },
            ) && sum_values(l.values()) == sum_values(self.values()) && forall|i: u8| i < decl.owners@.len()
                ==> l.participants@[participant_key(*id, i)] == decl.owners@[i as int]@),
    {
        if self.accounts.contains_key(id) {
            return Err(LedgerError::AlreadyExists);
        }
        if decl.owners.len() > 255 {
            return Err(LedgerError::TooManyParticipants);
        }
        if decl.threshold == 0 || decl.threshold as usize > decl.owners.len() {
            return Err(LedgerError::ThresholdInvalid);
        }
        let n = decl.owners.len() as u8;
        let mut l = self;
        let ghost pre = l.participants@;
        let mut i: u8 = 0;
        while i < n
            invariant
                0 <= i <= n,
                n == decl.owners@.len(),
                l.accounts == self.accounts,
                l.participants.wf(),
                !l.accounts@.contains_key(*id),
                forall|k: IndexedKey| #[trigger] pre.contains_key(k) ==> l.accounts@.contains_key(k.digest),
                l.participants@ == pre.union_prefer_right(
                    Map::new(|k: IndexedKey| k.digest == *id && k.index < i, |k: IndexedKey| decl.owners@[k.index as int]@),
                ),
            decreases n - i,
        {
            let key = IndexedKey { digest: *id, index: i };
            proof {
                if l.participants@.contains_key(key) {
                    assert(!pre.contains_key(key));
                }
            }
            l.participants.insert_new(key, decl.owners[i as usize]);
            proof {
                assert(l.participants@ =~= pre.union_prefer_right(
                    Map::new(|k: IndexedKey| k.digest == *id && k.index < i + 1, |k: IndexedKey| decl.owners@[k.index as int]@),
                ));
            }
            i += 1;
        }
        let ghost prev = l.values();
        l.accounts.insert_new(
            *id,
            MultisigAccount { value: Value(0), counter: 0, threshold: decl.threshold, participants: n },
        );
        proof {
            assert(l.values() =~= prev.push(Value(0)));
            lemma_sum_values_push(prev, Value(0));
        }
        Ok(l)
    }

    /// Credits an existing account.
    pub fn add_value(self, id: &Identifier, v: Value) -> (r: Result<Self, LedgerError>)
        requires
            self.wf(),
        ensures
            !self@.contains_key(*id) ==> r == Err::<Self, LedgerError>(LedgerError::NonExistent),
            self@.contains_key(*id) && self@[*id].value.0 + v.0 > u64::MAX ==> r == Err::<Self, LedgerError>(
                LedgerError::ValueError(ValueError::Overflow),
            ),
            self@.contains_key(*id) && self@[*id].value.0 + v.0 <= u64::MAX ==> (r matches Ok(l) && l.wf()
                && l.participants@ == self.participants@ && l@ == self@.insert(
                *id,
                MultisigAccount { value: Value((self@[*id].value.0 + v.0) as u64), ..self@[*id] },
            ) && sum_values(l.values()) == sum_values(self.values()) + v.0),
    {
        match self.accounts.find(id) {
            None => Err(LedgerError::NonExistent),
            Some(i) => {
                let st = self.accounts.entry(i).1;
                match st.value.checked_add(v) {
                    Err(e) => Err(LedgerError::ValueError(e)),
                    Ok(nv) => {
                        let ghost pre = self;
                        let mut l = self;
                        l.accounts.set_at(i, MultisigAccount { value: nv, ..st });
                        proof {
                            assert(l.values() =~= pre.values().update(i as int, nv));
                            lemma_sum_values_update(pre.values(), i as int, nv);
                        }
                        Ok(l)
                    },
                }
            },
        }
    }

    /// Debits an account and advances its counter, handing back the counter
    /// from before the spend.
    pub fn remove_value(self, id: &Identifier, v: Value) -> (r: Result<(Self, SpendingCounter), LedgerError>)
        requires
            self.wf(),
        ensures
            !self@.contains_key(*id) ==> r == Err::<(Self, SpendingCounter), LedgerError>(LedgerError::NonExistent),
            self@.contains_key(*id) && self@[*id].value.0 < v.0 ==> r == Err::<(Self, SpendingCounter), LedgerError>(
                LedgerError::InsufficientFunds,
            ),
            self@.contains_key(*id) && self@[*id].value.0 >= v.0 && self@[*id].counter == u32::MAX ==> r == Err::<
                (Self, SpendingCounter),
                LedgerError,
            >(LedgerError::SpendingCounterExhausted),
            self@.contains_key(*id) && self@[*id].value.0 >= v.0 && self@[*id].counter < u32::MAX ==> (r matches Ok((l, c)) && l.wf() && c
                == self@[*id].counter && l.participants@ == self.participants@ && l@ == self@.insert(
                *id,
                MultisigAccount {
                    value: Value((self@[*id].value.0 - v.0) as u64),
                    counter: next_counter(self@[*id].counter),
                    ..self@[*id]
                },
            ) && sum_values(l.values()) == sum_values(self.values()) - v.0),
    {
        match self.accounts.find(id) {
            None => Err(LedgerError::NonExistent),
            Some(i) => {
                let st = self.accounts.entry(i).1;
                if st.value.0 < v.0 {
                    return Err(LedgerError::InsufficientFunds);
                }
                let counter = st.counter;
                if counter == u32::MAX {
                    return Err(LedgerError::SpendingCounterExhausted);
                }
                let next = counter + 1;
                let ghost pre = self;
                let mut l = self;
                l.accounts.set_at(i, MultisigAccount { value: Value(st.value.0 - v.0), counter: next, ..st });
                proof {
                    assert(l.values() =~= pre.values().update(i as int, Value((st.value.0 - v.0) as u64)));
                    lemma_sum_values_update(pre.values(), i as int, Value((st.value.0 - v.0) as u64));
                }
                Ok((l, counter))
            },
        }
    }

    /// Checks a multisig signature of `data` for account `id`.
    pub fn verify(&self, id: &Identifier, sigs: &Vec<(u8, Signature)>, data: &Vec<u8>) -> (r: bool)
        requires
            self.wf(),
            self@.contains_key(*id),
        ensures
            r == self.accepts(*id, sigs@, data@),
    {
        let acc = match self.accounts.get(id) {
            Some(a) => *a,
            None => {
                return false;
            },
        };
        if sigs.len() < acc.threshold as usize {
            return false;
        }
        let mut i: usize = 0;
        while i < sigs.len()
            invariant
                0 <= i <= sigs@.len(),
                self.wf(),
                self@.contains_key(*id),
                acc == self@[*id],
                forall|a: int, b: int| 0 <= a < i && 0 <= b < i && a != b ==> sigs@[a].0 != sigs@[b].0,
                forall|a: int| 0 <= a < i ==> self.participant_signed(*id, #[trigger] sigs@[a], data@),
            decreases sigs@.len() - i,
        {
            let (index, sig) = sigs[i];
            if index >= acc.participants {
                return false;
            }
            let mut j: usize = 0;
            while j < i
                invariant
                    0 <= j <= i < sigs@.len(),
                    index == sigs@[i as int].0,
                    forall|b: int| 0 <= b < j ==> sigs@[b].0 != index,
                decreases i - j,
            {
                if sigs[j].0 == index {
                    return false;
                }
                j += 1;
            }
            let key = IndexedKey { digest: *id, index };
            let pk = match self.participants.get(&key) {
                Some(k) => *k,
                None => {
                    return false;
                },
            };
            if !ed25519_verify(data, &pk, &sig) {
                return false;
            }
            i += 1;
        }
        true
    }

    /// The sum of all balances, failing when it does not fit.
    pub fn get_total_value(&self) -> (r: Result<Value, ValueError>)
        ensures
            sum_values(self.values()) <= u64::MAX ==> r == Ok::<Value, ValueError>(Value(sum_values(self.values()) as u64)),
            sum_values(self.values()) > u64::MAX ==> r == Err::<Value, ValueError>(ValueError::Overflow),
    {
        let mut values: Vec<Value> = Vec::new();
        let mut i: usize = 0;
        while i < self.accounts.len()
            invariant
                0 <= i <= self.accounts.seq().len(),
                values@ == self.values().subrange(0, i as int),
            decreases self.accounts.seq().len() - i,
        {
            values.push(self.accounts.entry(i).1.value);
            proof {
                assert(values@ =~= self.values().subrange(0, i + 1));
            }
            i += 1;
        }
        proof {
            assert(values@ =~= self.values());
        }
        Value::sum(&values)
    }
}

} // verus!
