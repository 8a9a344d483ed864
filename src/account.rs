//! The account sub-ledger: balances, spending counters and delegation.
use vstd::prelude::*;
use crate::keymap::{Dup, KeyMap};
use crate::stake::StakePoolId;
use crate::transaction::{AccountIdentifier, SpendingCounter};
use crate::value::{lemma_sum_values_push, lemma_sum_values_update, sum_values, Value, ValueError};

verus! {

#[derive(Clone, Copy, Debug, PartialEq, Eq)]
pub struct AccountState {
    pub value: Value,
    pub counter: SpendingCounter,
    pub delegation: Option<StakePoolId>,
}

impl View for AccountState {
    type V = AccountState;

    open spec fn view(&self) -> AccountState {
        *self
    }
}

impl Dup for AccountState {
    fn dup(&self) -> (r: Self) {
        *self
    }
}

#[derive(Clone, Copy, Debug, PartialEq, Eq, Structural)]
pub enum LedgerError {
    NonExistent,
    AlreadyExists,
    InsufficientFunds,
    /// The spending counter is at its largest value: no further spend can be
    /// signed over a fresh counter.
    SpendingCounterExhausted,
    ValueError(ValueError),
}

#[derive(Clone, Debug)]
pub struct Ledger {
    pub accounts: KeyMap<AccountIdentifier, AccountState>,
}

/// A counter after one more spend; a counter at its largest value admits
/// no further spend.
pub open spec fn next_counter(c: SpendingCounter) -> SpendingCounter
    recommends
        c < u32::MAX,
{
    (c + 1) as u32
}

impl Ledger {
    pub open spec fn wf(&self) -> bool {
        self.accounts.wf()
    }

    pub open spec fn view(&self) -> Map<AccountIdentifier, AccountState> {
        self.accounts@
    }

    /// The balances of all accounts, in order.
    pub open spec fn values(&self) -> Seq<Value> {
        self.accounts.seq().map_values(|e: (AccountIdentifier, AccountState)| e.1.value)
    }

    pub fn new() -> (r: Self)
        ensures
            r.wf(),
            r@ == Map::<AccountIdentifier, AccountState>::empty(),
            r.values().len() == 0,
    {
        Ledger { accounts: KeyMap::new() }
    }

    pub fn dup(&self) -> (r: Self)
        requires
            self.wf(),
        ensures
            r.wf(),
            r@ == self@,
            r.values() == self.values(),
    {
        let r = Ledger { accounts: self.accounts.dup() };
        assert forall|i: int| 0 <= i < self.values().len() implies r.values()[i] == self.values()[i] by {
            assert(r.accounts.seq()[i].0 == self.accounts.seq()[i].0);
        }
        assert(r.values() =~= self.values());
        r
    }

    pub fn contains(&self, id: &AccountIdentifier) -> (r: bool)
        requires
            self.wf(),
        ensures
            r == self@.contains_key(*id),
    {
        self.accounts.contains_key(id)
    }

    pub fn get_state(&self, id: &AccountIdentifier) -> (r: Result<AccountState, LedgerError>)
        requires
            self.wf(),
        ensures
            !self@.contains_key(*id) ==> r == Err::<AccountState, LedgerError>(LedgerError::NonExistent),
            self@.contains_key(*id) ==> r == Ok::<AccountState, LedgerError>(self@[*id]),
    {
        match self.accounts.get(id) {
            Some(s) => Ok(*s),
            None => Err(LedgerError::NonExistent),
        }
    }

    /// Creates an account with the given balance, a zero counter and no
    /// delegation; fails when it exists already.
    pub fn add_account(self, id: &AccountIdentifier, initial_value: Value) -> (r: Result<Self, LedgerError>)
        requires
            self.wf(),
        ensures
            self@.contains_key(*id) ==> r == Err::<Self, LedgerError>(LedgerError::AlreadyExists),
            !self@.contains_key(*id) ==> (r matches Ok(l) && l.wf() && l@ == self@.insert(
                *id,
                AccountState { value: initial_value, counter: 0, delegation: None },
            ) && sum_values(l.values()) == sum_values(self.values()) + initial_value.0),
    {
        if self.accounts.contains_key(id) {
            return Err(LedgerError::AlreadyExists);
        }
        let ghost pre = self;
        let mut l = self;
        l.accounts.insert_new(*id, AccountState { value: initial_value, counter: 0, delegation: None });
        proof {
            assert(l.values() =~= pre.values().push(initial_value));
            lemma_sum_values_push(pre.values(), initial_value);
        }
        Ok(l)
    }

    /// Credits an existing account.
    pub fn add_value(self, id: &AccountIdentifier, v: Value) -> (r: Result<Self, LedgerError>)
        requires
            self.wf(),
        ensures
            !self@.contains_key(*id) ==> r == Err::<Self, LedgerError>(LedgerError::NonExistent),
            self@.contains_key(*id) && self@[*id].value.0 + v.0 > u64::MAX ==> r == Err::<Self, LedgerError>(
                LedgerError::ValueError(ValueError::Overflow),
            ),
            self@.contains_key(*id) && self@[*id].value.0 + v.0 <= u64::MAX ==> (r matches Ok(l) && l.wf()
                && l@ == self@.insert(
                *id,
                AccountState { value: Value((self@[*id].value.0 + v.0) as u64), ..self@[*id] },
            ) && sum_values(l.values()) == sum_values(self.values()) + v.0),
    {
        match self.accounts.find(id) {
            None => Err(LedgerError::NonExistent),
            Some(i) => {
                let st = self.accounts.entry(i).1;
                match st.value.checked_add(v) {
                    Err(e) => Err(LedgerError::ValueError(e)),
                    Ok(nv) => {
                        let ghost pre = self;
                        let mut l = self;
                        l.accounts.set_at(i, AccountState { value: nv, ..st });
                        proof {
                            assert(l.values() =~= pre.values().update(i as int, nv));
                            lemma_sum_values_update(pre.values(), i as int, nv);
                        }
                        Ok(l)
                    },
                }
            },
        }
    }

    /// Debits an account and advances its spending counter, handing back the
    /// counter from before the spend.
    pub fn remove_value(self, id: &AccountIdentifier, v: Value) -> (r: Result<(Self, SpendingCounter), LedgerError>)
        requires
            self.wf(),
        ensures
            !self@.contains_key(*id) ==> r == Err::<(Self, SpendingCounter), LedgerError>(LedgerError::NonExistent),
            self@.contains_key(*id) && self@[*id].value.0 < v.0 ==> r == Err::<(Self, SpendingCounter), LedgerError>(
                LedgerError::InsufficientFunds,
            ),
            self@.contains_key(*id) && self@[*id].value.0 >= v.0 && self@[*id].counter == u32::MAX ==> r == Err::<
                (Self, SpendingCounter),
                LedgerError,
            >(LedgerError::SpendingCounterExhausted),
            self@.contains_key(*id) && self@[*id].value.0 >= v.0 && self@[*id].counter < u32::MAX ==> (r matches Ok((l, c)) && l.wf() && c
                == self@[*id].counter && l@ == self@.insert(
                *id,
                AccountState {
                    value: Value((self@[*id].value.0 - v.0) as u64),
                    counter: next_counter(self@[*id].counter),
                    ..self@[*id]
                },
            ) && sum_values(l.values()) == sum_values(self.values()) - v.0),
    {
        match self.accounts.find(id) {
            None => Err(LedgerError::NonExistent),
            Some(i) => {
                let st = self.accounts.entry(i).1;
                if st.value.0 < v.0 {
                    return Err(LedgerError::InsufficientFunds);
                }
                let counter = st.counter;
                if counter == u32::MAX {
                    return Err(LedgerError::SpendingCounterExhausted);
                }
                let next = counter + 1;
                let ghost pre = self;
                let mut l = self;
                l.accounts.set_at(i, AccountState { value: Value(st.value.0 - v.0), counter: next, ..st });
                proof {
                    assert(l.values() =~= pre.values().update(i as int, Value((st.value.0 - v.0) as u64)));
                    lemma_sum_values_update(pre.values(), i as int, Value((st.value.0 - v.0) as u64));
                }
                Ok((l, counter))
            },
        }
    }

    /// Sets the pool an existing account delegates to.
    pub fn set_delegation(self, id: &AccountIdentifier, pool: Option<StakePoolId>) -> (r: Result<Self, LedgerError>)
        requires
            self.wf(),
        ensures
            !self@.contains_key(*id) ==> r == Err::<Self, LedgerError>(LedgerError::NonExistent),
            self@.contains_key(*id) ==> (r matches Ok(l) && l.wf() && l@ == self@.insert(
                *id,
                AccountState { delegation: pool, ..self@[*id] },
            ) && l.values() == self.values()),
    {
        match self.accounts.find(id) {
            None => Err(LedgerError::NonExistent),
            Some(i) => {
                let st = self.accounts.entry(i).1;
                let ghost pre = self;
                let mut l = self;
                l.accounts.set_at(i, AccountState { delegation: pool, ..st });
                proof {
                    assert(l.values() =~= pre.values());
                }
                Ok(l)
            },
        }
    }

    /// The sum of all balances, failing when it does not fit.
    pub fn get_total_value(&self) -> (r: Result<Value, ValueError>)
        ensures
            sum_values(self.values()) <= u64::MAX ==> r == Ok::<Value, ValueError>(Value(sum_values(self.values()) as u64)),
            sum_values(self.values()) > u64::MAX ==> r == Err::<Value, ValueError>(ValueError::Overflow),
    {
        let mut values: Vec<Value> = Vec::new();
        let mut i: usize = 0;
        while i < self.accounts.len()
            invariant
                0 <= i <= self.accounts.seq().len(),
                values@ == self.values().subrange(0, i as int),
            decreases self.accounts.seq().len() - i,
        {
            values.push(self.accounts.entry(i).1.value);
            proof {
                assert(values@ =~= self.values().subrange(0, i + 1));
            }
            i += 1;
        }
        proof {
            assert(values@ =~= self.values());
        }
        Value::sum(&values)
    }
}

} // verus!
