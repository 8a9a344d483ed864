//! The ledger: an immutable snapshot of every sub-ledger, advanced by
//! applying fragments and blocks.
use vstd::prelude::*;
use crate::account::{self, next_counter, AccountState};
use crate::address::{spending_key, Address, Discrimination, Kind, OldAddress};
use crate::block::{date_lt, BlockDate, ChainLength, ConsensusVersion, HeaderContentEvalContext, HeaderHash, TimeEra};
use crate::certificate::{certificate_verified, CertificateContent};
use crate::config::{fee_for, Block0Date, ConfigParam, ConfigParams, LinearFee};
use crate::crypto::{blake2b_256, blake2b_of, digest_of, ed25519_accepts, ed25519_verify, lemma_digest_of, push_bytes, Digest};
use crate::keymap::IndexedKey;
use crate::message::{certificate_transaction_bytes, declaration_body, AuthenticatedCertificateTransaction, Message, UtxoDeclaration};
use crate::multisig::{self, msig_accepts, MultisigAccount};
use crate::setting::{self, apply_params, default_settings, Settings, SettingsModel};
use crate::stake::{pool_id_preimage, DelegationError, DelegationState, StakePoolId, StakePoolInfoModel};
use crate::transaction::{
    transaction_bytes,
    witness_account_bytes, witness_account_data, witness_multisig_bytes, witness_multisig_data, witness_utxo_bytes,
    witness_utxo_data, AccountIdentifier, AuthenticatedTransaction, Input, Output, Transaction, TransactionId,
    UtxoPointer, Witness,
};
use crate::update::{
    self, entries_map, lemma_sorted_entries_unique, lemma_view_entries, model_entries, process, proposal_result, signed_proposal_bytes, vote_result, ProposalStateModel, SignedUpdateProposal,
    SignedUpdateVote, UpdateProposalId, UpdateState,
};
use crate::utxo::{self, indexed_values, utxo_key, with_outputs};
use crate::value::{lemma_sum_values_nonneg, lemma_sum_values_push, sum_values, Value, ValueError};

verus! {

/// Parameters fixed at genesis.
#[derive(Clone, Copy, Debug, PartialEq, Eq)]
pub struct LedgerStaticParameters {
    pub block0_initial_hash: HeaderHash,
    pub block0_start_time: Block0Date,
    pub discrimination: Discrimination,
    pub kes_update_speed: u32,
}

/// Parameters a fragment is validated with.
#[derive(Clone, Copy, Debug, PartialEq, Eq)]
pub struct LedgerParameters {
    pub fees: LinearFee,
}

pub const MAX_TRANSACTION_INPUTS_COUNT: usize = 256;

pub const MAX_TRANSACTION_OUTPUTS_COUNT: usize = 254;

pub const MAX_TRANSACTION_WITNESSES_COUNT: usize = 256;

#[derive(Clone, Copy, Debug, PartialEq, Eq)]
pub enum Block0Error {
    OnlyMessageReceived,
    TransactionHasInput,
    TransactionHasOutput,
    TransactionHasWitnesses,
    InitialMessageMissing,
    InitialMessageMany,
    InitialMessageDuplicateBlock0Date,
    InitialMessageDuplicateDiscrimination,
    InitialMessageDuplicateSlotDuration,
    InitialMessageDuplicateSlotsPerEpoch,
    InitialMessageDuplicateKesUpdateSpeed,
    InitialMessageNoDate,
    InitialMessageNoSlotDuration,
    InitialMessageNoSlotsPerEpoch,
    InitialMessageNoDiscrimination,
    InitialMessageNoConsensusLeaderId,
    InitialMessageNoKesUpdateSpeed,
    UtxoTotalValueTooBig,
    HasUpdateProposal,
    HasUpdateVote,
}

#[derive(Clone, Debug, PartialEq, Eq)]
pub enum Error {
    Config { source: setting::Error },
    NotEnoughSignatures { actual: usize, expected: usize },
    UtxoValueNotMatching { expected: Value, value: Value },
    UtxoError { source: utxo::Error },
    UtxoInvalidSignature { utxo: UtxoPointer, output: Output<Address>, witness: Witness },
    OldUtxoInvalidSignature { utxo: UtxoPointer, output: Output<OldAddress>, witness: Witness },
    OldUtxoInvalidPublicKey { utxo: UtxoPointer, output: Output<OldAddress>, witness: Witness },
    AccountInvalidSignature { account: AccountIdentifier, witness: Witness },
    MultisigInvalidSignature { multisig: multisig::Identifier },
    TransactionHasTooManyInputs { expected: usize, actual: usize },
    TransactionHasTooManyOutputs { expected: usize, actual: usize },
    TransactionHasTooManyWitnesses { expected: usize, actual: usize },
    FeeCalculationError { error: ValueError },
    UtxoInputsTotal { error: ValueError },
    UtxoOutputsTotal { error: ValueError },
    Block0 { source: Block0Error },
    Account { source: account::LedgerError },
    Multisig { source: multisig::LedgerError },
    NotBalanced { inputs: Value, outputs: Value },
    ZeroOutput { output: Output<Address> },
    Delegation { source: DelegationError },
    InvalidDiscrimination,
    ExpectingAccountWitness,
    ExpectingUtxoWitness,
    ExpectingInitialMessage,
    CertificateInvalidSignature,
    Update { source: update::Error },
    WrongChainLength { actual: ChainLength, expected: ChainLength },
    /// The chain is at the largest length and takes no further block.
    ChainLengthExhausted { chain_length: ChainLength },
    NonMonotonicDate { block_date: BlockDate, chain_date: BlockDate },
}

/// The value-bearing sub-ledgers, as plain maps.
pub struct TxModel {
    pub utxos: Map<IndexedKey, Output<Address>>,
    pub oldutxos: Map<IndexedKey, Output<OldAddress>>,
    pub accounts: Map<AccountIdentifier, AccountState>,
    pub multisig: Map<multisig::Identifier, MultisigAccount>,
    pub multisig_keys: Map<IndexedKey, Seq<u8>>,
}

/// What output materialisation works on.
pub struct OutputsModel {
    pub accounts: Map<AccountIdentifier, AccountState>,
    pub multisig: Map<multisig::Identifier, MultisigAccount>,
    pub new_utxos: Seq<(u8, Output<Address>)>,
}

/// One output, at position `i`, materialised.
pub open spec fn output_step(st: OutputsModel, discrimination: Discrimination, i: int, o: Output<Address>) -> Result<
    OutputsModel,
    Error,
> {
    if o.value.0 == 0 {
        Err(Error::ZeroOutput { output: o })
    } else if o.address.0 != discrimination {
        Err(Error::InvalidDiscrimination)
    } else {
        match o.address.1 {
            Kind::Single(_) => Ok(OutputsModel { new_utxos: st.new_utxos.push((i as u8, o)), ..st }),
            Kind::Group(_, acc) => Ok(
                OutputsModel {
                    accounts: if st.accounts.contains_key(acc) {
                        st.accounts
                    } else {
                        st.accounts.insert(acc, AccountState { value: Value(0), counter: 0, delegation: None })
                    },
                    new_utxos: st.new_utxos.push((i as u8, o)),
                    ..st
                },
            ),
            Kind::Account(id) => if !st.accounts.contains_key(id) {
                Ok(
                    OutputsModel {
                        accounts: st.accounts.insert(id, AccountState { value: o.value, counter: 0, delegation: None }),
                        ..st
                    },
                )
            } else if st.accounts[id].value.0 + o.value.0 > u64::MAX {
                Err(Error::Account { source: account::LedgerError::ValueError(ValueError::Overflow) })
            } else {
                Ok(
                    OutputsModel {
                        accounts: st.accounts.insert(
                            id,
                            AccountState { value: Value((st.accounts[id].value.0 + o.value.0) as u64), ..st.accounts[id] },
                        ),
                        ..st
                    },
                )
            },
            Kind::Multisig(id) => if !st.multisig.contains_key(id) {
                Err(Error::Multisig { source: multisig::LedgerError::NonExistent })
            } else if st.multisig[id].value.0 + o.value.0 > u64::MAX {
                Err(Error::Multisig { source: multisig::LedgerError::ValueError(ValueError::Overflow) })
            } else {
                Ok(
                    OutputsModel {
                        multisig: st.multisig.insert(
                            id,
                            MultisigAccount { value: Value((st.multisig[id].value.0 + o.value.0) as u64), ..st.multisig[id] },
                        ),
                        ..st
                    },
                )
            },
        }
    }
}

/// The first `n` outputs materialised in order; the first failure wins.
pub open spec fn outputs_upto(st: OutputsModel, discrimination: Discrimination, outs: Seq<Output<Address>>, n: int) -> Result<
    OutputsModel,
    Error,
>
    decreases n,
{
    if n <= 0 {
        Ok(st)
    } else {
        match outputs_upto(st, discrimination, outs, n - 1) {
            Err(e) => Err(e),
            Ok(st2) => output_step(st2, discrimination, n - 1, outs[n - 1]),
        }
    }
}

pub proof fn lemma_outputs_err(st: OutputsModel, d: Discrimination, outs: Seq<Output<Address>>, n0: int, n: int)
    requires
        0 <= n0 <= n,
        outputs_upto(st, d, outs, n0) is Err,
    ensures
        outputs_upto(st, d, outs, n) == outputs_upto(st, d, outs, n0),
    decreases n - n0,
{
    if n > n0 {
        lemma_outputs_err(st, d, outs, n0, n - 1);
    }
}

/// Outputs of a transaction materialised: credited to accounts and multisig
/// accounts, and the spendable ones added as unspent outputs of `txid`.
pub open spec fn materialize(m: TxModel, discrimination: Discrimination, txid: TransactionId, outs: Seq<Output<Address>>) -> Result<
    TxModel,
    Error,
> {
    match outputs_upto(
        OutputsModel { accounts: m.accounts, multisig: m.multisig, new_utxos: Seq::empty() },
        discrimination,
        outs,
        outs.len() as int,
    ) {
        Err(e) => Err(e),
        Ok(st) => if exists|k: IndexedKey| m.utxos.contains_key(k) && k.digest == txid {
            Err(Error::UtxoError { source: utxo::Error::AlreadyExists })
        } else {
            Ok(TxModel { utxos: with_outputs(m.utxos, txid, st.new_utxos), accounts: st.accounts, multisig: st.multisig, ..m })
        },
    }
}

pub open spec fn output_values(outs: Seq<Output<Address>>) -> Seq<Value> {
    outs.map_values(|o: Output<Address>| o.value)
}

/// The value held by the utxos, accounts and multisig accounts.
pub open spec fn held_value(u: utxo::Ledger<Address>, a: account::Ledger, m: multisig::Ledger) -> int {
    sum_values(u.values()) + sum_values(a.values()) + sum_values(m.values())
}

fn internal_apply_transaction_output(
    utxos: utxo::Ledger<Address>,
    accounts: account::Ledger,
    multisig: multisig::Ledger,
    static_params: &LedgerStaticParameters,
    transaction_id: &TransactionId,
    outputs: &Vec<Output<Address>>,
) -> (r: Result<(utxo::Ledger<Address>, account::Ledger, multisig::Ledger), Error>)
    requires
        utxos.wf(),
        accounts.wf(),
        multisig.wf(),
        outputs@.len() <= MAX_TRANSACTION_OUTPUTS_COUNT,
    ensures
        ({
            let m = TxModel {
                utxos: utxos@,
                oldutxos: Map::empty(),
                accounts: accounts@,
                multisig: multisig@,
                multisig_keys: multisig.participants@,
            };
            &&& materialize(m, static_params.discrimination, *transaction_id, outputs@) matches Err(e) ==> r == Err::<
                (utxo::Ledger<Address>, account::Ledger, multisig::Ledger),
                Error,
            >(e)
            &&& materialize(m, static_params.discrimination, *transaction_id, outputs@) matches Ok(t) ==> (r matches Ok(
                (u, a, ms),
            ) && u.wf() && a.wf() && ms.wf() && u@ == t.utxos && a@ == t.accounts && ms@ == t.multisig
                && ms.participants@ == multisig.participants@ && held_value(u, a, ms) == held_value(
                utxos,
                accounts,
                multisig,
            ) + sum_values(output_values(outputs@)))
        }),
{
    let ghost init = OutputsModel { accounts: accounts@, multisig: multisig@, new_utxos: Seq::empty() };
    let ghost d = static_params.discrimination;
    let mut acc = accounts;
    let mut ms = multisig;
    let mut new_utxos: Vec<(u8, Output<Address>)> = Vec::new();
    let mut i: usize = 0;
    proof {
        assert(output_values(outputs@).subrange(0, 0) =~= Seq::<Value>::empty());
        assert(indexed_values(new_utxos@) =~= Seq::<Value>::empty());
    }
    while i < outputs.len()
        invariant
            0 <= i <= outputs@.len() <= MAX_TRANSACTION_OUTPUTS_COUNT,
            d == static_params.discrimination,
            init == (OutputsModel { accounts: accounts@, multisig: multisig@, new_utxos: Seq::empty() }),
            acc.wf(),
            ms.wf(),
            ms.participants@ == multisig.participants@,
            outputs_upto(init, d, outputs@, i as int) == Ok::<OutputsModel, Error>(
                OutputsModel { accounts: acc@, multisig: ms@, new_utxos: new_utxos@ },
            ),
            forall|a: int, b: int| 0 <= a < b < new_utxos@.len() ==> new_utxos@[a].0 < new_utxos@[b].0,
            forall|a: int| 0 <= a < new_utxos@.len() ==> new_utxos@[a].0 < i,
            sum_values(indexed_values(new_utxos@)) + sum_values(acc.values()) + sum_values(ms.values())
                == sum_values(accounts.values()) + sum_values(multisig.values()) + sum_values(
                output_values(outputs@).subrange(0, i as int),
            ),
        decreases outputs@.len() - i,
    {
        let output = outputs[i];
        let ghost st = OutputsModel { accounts: acc@, multisig: ms@, new_utxos: new_utxos@ };
        let ghost prev_new = new_utxos@;
        let ghost prev_sum = sum_values(indexed_values(new_utxos@)) + sum_values(acc.values()) + sum_values(ms.values());
        proof {
            assert(output_values(outputs@).subrange(0, i + 1) =~= output_values(outputs@).subrange(0, i as int).push(output.value));
            lemma_sum_values_push(output_values(outputs@).subrange(0, i as int), output.value);
        }
        if output.value.0 == 0 {
            proof {
                lemma_outputs_err(init, d, outputs@, i + 1, outputs@.len() as int);
            }
            return Err(Error::ZeroOutput { output });
        }
        if output.address.0 != static_params.discrimination {
            proof {
                lemma_outputs_err(init, d, outputs@, i + 1, outputs@.len() as int);
            }
            return Err(Error::InvalidDiscrimination);
        }
        match output.address.1 {
            Kind::Single(_) => {
                new_utxos.push((i as u8, output));
            },
            Kind::Group(_, gid) => {
                if !acc.contains(&gid) {
                    acc = match acc.add_account(&gid, Value(0)) {
                        Ok(a) => a,
                        Err(e) => {
                            return Err(Error::Account { source: e });
                        },
                    };
                }
                new_utxos.push((i as u8, output));
            },
            Kind::Account(id) => {
                if acc.contains(&id) {
                    acc = match acc.add_value(&id, output.value) {
                        Ok(a) => a,
                        Err(e) => {
                            proof {
                                lemma_outputs_err(init, d, outputs@, i + 1, outputs@.len() as int);
                            }
                            return Err(Error::Account { source: e });
                        },
                    };
                } else {
                    acc = match acc.add_account(&id, output.value) {
                        Ok(a) => a,
                        Err(e) => {
                            return Err(Error::Account { source: e });
                        },
                    };
                }
            },
            Kind::Multisig(id) => {
                ms = match ms.add_value(&id, output.value) {
                    Ok(m) => m,
                    Err(e) => {
                        proof {
                            lemma_outputs_err(init, d, outputs@, i + 1, outputs@.len() as int);
                        }
                        return Err(Error::Multisig { source: e });
                    },
                };
            },
        }
        proof {
            if new_utxos@.len() > prev_new.len() {
                assert(new_utxos@ == prev_new.push((i as u8, output)));
                assert(indexed_values(new_utxos@) =~= indexed_values(prev_new).push(output.value));
                lemma_sum_values_push(indexed_values(prev_new), output.value);
            }
        }
        i += 1;
    }
    proof {
        assert(output_values(outputs@).subrange(0, outputs@.len() as int) == output_values(outputs@));
    }
    match utxos.add(transaction_id, &new_utxos) {
        Ok(u) => {
            Ok((u, acc, ms))
        },
        Err(e) => {
            Err(Error::UtxoError { source: e })
        },
    }
}

/// The overall ledger: every sub-ledger at one point of the chain.
#[derive(Clone, Debug)]
pub struct Ledger {
    pub utxos: utxo::Ledger<Address>,
    pub oldutxos: utxo::Ledger<OldAddress>,
    pub accounts: account::Ledger,
    pub settings: Settings,
    pub updates: UpdateState,
    pub multisig: multisig::Ledger,
    pub delegation: DelegationState,
    pub static_params: LedgerStaticParameters,
    pub date: BlockDate,
    pub chain_length: ChainLength,
}

/// A whole snapshot as plain values.
pub struct LedgerModel {
    pub tx: TxModel,
    pub settings: SettingsModel,
    pub updates: Map<UpdateProposalId, ProposalStateModel>,
    pub delegation: Map<StakePoolId, StakePoolInfoModel>,
    pub static_params: LedgerStaticParameters,
    pub date: BlockDate,
    pub chain_length: ChainLength,
}

impl Ledger {
    pub open spec fn model(&self) -> LedgerModel {
        LedgerModel {
            tx: self.tx_model(),
            settings: self.settings@,
            updates: self.updates@,
            delegation: self.delegation@,
            static_params: self.static_params,
            date: self.date,
            chain_length: self.chain_length,
        }
    }

    pub open spec fn wf(&self) -> bool {
        &&& self.utxos.wf()
        &&& self.oldutxos.wf()
        &&& self.accounts.wf()
        &&& self.updates.wf()
        &&& self.multisig.wf()
        &&& self.delegation.wf()
    }

    pub open spec fn tx_model(&self) -> TxModel {
        TxModel {
            utxos: self.utxos@,
            oldutxos: self.oldutxos@,
            accounts: self.accounts@,
            multisig: self.multisig@,
            multisig_keys: self.multisig.participants@,
        }
    }

    /// All value the ledger holds: unspent outputs, old and new, and the
    /// balances of accounts and multisig accounts.
    pub open spec fn total_value(&self) -> int {
        sum_values(self.utxos.values()) + sum_values(self.oldutxos.values()) + sum_values(self.accounts.values())
            + sum_values(self.multisig.values())
    }
}

/// Everything but the value-bearing sub-ledgers is as in `o`.
pub open spec fn keeps_rest(l: Ledger, o: Ledger) -> bool {
    &&& l.settings@ == o.settings@
    &&& l.updates@ == o.updates@
    &&& model_entries(l.updates.proposals) == model_entries(o.updates.proposals)
    &&& l.delegation@ == o.delegation@
    &&& l.static_params == o.static_params
    &&& l.date == o.date
    &&& l.chain_length == o.chain_length
}

/// One input spent with its witness.
pub open spec fn input_step(m: TxModel, block0: Digest, txid: TransactionId, input: Input, witness: Witness) -> Result<
    TxModel,
    Error,
> {
    match input {
        Input::Utxo(p) => match witness {
            Witness::Utxo(sig) => {
                let k = utxo_key(p.transaction_id, p.output_index);
                if !m.utxos.contains_key(k) {
                    Err(Error::UtxoError { source: utxo::Error::NotFound })
                } else if p.value != m.utxos[k].value {
                    Err(Error::UtxoValueNotMatching { expected: p.value, value: m.utxos[k].value })
                } else if !(spending_key(m.utxos[k].address.1) matches Some(pk) && ed25519_accepts(
                    witness_utxo_data(block0, txid),
                    pk@,
                    sig@,
                )) {
                    Err(Error::UtxoInvalidSignature { utxo: p, output: m.utxos[k], witness })
                } else {
                    Ok(TxModel { utxos: m.utxos.remove(k), ..m })
                }
            },
            Witness::OldUtxo(xpub, chain_code, sig) => {
                let k = utxo_key(p.transaction_id, p.output_index);
                if !m.oldutxos.contains_key(k) {
                    Err(Error::UtxoError { source: utxo::Error::NotFound })
                } else if p.value != m.oldutxos[k].value {
                    Err(Error::UtxoValueNotMatching { expected: p.value, value: m.oldutxos[k].value })
                } else if m.oldutxos[k].address.0@ != blake2b_of(xpub@ + chain_code@) {
                    Err(Error::OldUtxoInvalidPublicKey { utxo: p, output: m.oldutxos[k], witness })
                } else if !ed25519_accepts(witness_utxo_data(block0, txid), xpub@, sig@) {
                    Err(Error::OldUtxoInvalidSignature { utxo: p, output: m.oldutxos[k], witness })
                } else {
                    Ok(TxModel { oldutxos: m.oldutxos.remove(k), ..m })
                }
            },
            _ => Err(Error::ExpectingUtxoWitness),
        },
        Input::Account(id, v) => match witness {
            Witness::Account(sig) => if !m.accounts.contains_key(id) {
                Err(Error::Account { source: account::LedgerError::NonExistent })
            } else if m.accounts[id].value.0 < v.0 {
                Err(Error::Account { source: account::LedgerError::InsufficientFunds })
            } else if m.accounts[id].counter == u32::MAX {
                Err(Error::Account { source: account::LedgerError::SpendingCounterExhausted })
            } else if !ed25519_accepts(witness_account_data(block0, txid, m.accounts[id].counter), id@, sig@) {
                Err(Error::AccountInvalidSignature { account: id, witness })
            } else {
                Ok(
                    TxModel {
                        accounts: m.accounts.insert(
                            id,
                            AccountState {
                                value: Value((m.accounts[id].value.0 - v.0) as u64),
                                counter: next_counter(m.accounts[id].counter),
                                ..m.accounts[id]
                            },
                        ),
                        ..m
                    },
                )
            },
            Witness::Multisig(sigs) => if !m.multisig.contains_key(id) {
                Err(Error::Multisig { source: multisig::LedgerError::NonExistent })
            } else if m.multisig[id].value.0 < v.0 {
                Err(Error::Multisig { source: multisig::LedgerError::InsufficientFunds })
            } else if m.multisig[id].counter == u32::MAX {
                Err(Error::Multisig { source: multisig::LedgerError::SpendingCounterExhausted })
            } else if !msig_accepts(
                m.multisig,
                m.multisig_keys,
                id,
                sigs@,
                witness_multisig_data(block0, txid, m.multisig[id].counter),
            ) {
                Err(Error::MultisigInvalidSignature { multisig: id })
            } else {
                Ok(
                    TxModel {
                        multisig: m.multisig.insert(
                            id,
                            MultisigAccount {
                                value: Value((m.multisig[id].value.0 - v.0) as u64),
                                counter: next_counter(m.multisig[id].counter),
                                ..m.multisig[id]
                            },
                        ),
                        ..m
                    },
                )
            },
            _ => Err(Error::ExpectingAccountWitness),
        },
    }
}

fn input_utxo_verify(ledger: Ledger, transaction_id: &TransactionId, utxo: &UtxoPointer, witness: &Witness) -> (r: Result<
    Ledger,
    Error,
>)
    requires
        ledger.wf(),
    ensures
        input_step(ledger.tx_model(), ledger.static_params.block0_initial_hash, *transaction_id, Input::Utxo(*utxo), *witness) matches Err(e)
            ==> r == Err::<Ledger, Error>(e),
        input_step(ledger.tx_model(), ledger.static_params.block0_initial_hash, *transaction_id, Input::Utxo(*utxo), *witness) matches Ok(t)
            ==> (r matches Ok(l) && l.wf() && l.tx_model() == t && keeps_rest(l, ledger) && l.total_value()
            == ledger.total_value() - utxo.value.0),
{
    let mut ledger = ledger;
    match witness {
        Witness::Account(_) => Err(Error::ExpectingUtxoWitness),
        Witness::Multisig(_) => Err(Error::ExpectingUtxoWitness),
        Witness::OldUtxo(xpub, chain_code, signature) => {
            let (old_utxos, associated_output) = match ledger.oldutxos.remove(&utxo.transaction_id, utxo.output_index) {
                Ok(x) => x,
                Err(e) => {
                    return Err(Error::UtxoError { source: e });
                },
            };
            ledger.oldutxos = old_utxos;
            if utxo.value != associated_output.value {
                return Err(Error::UtxoValueNotMatching { expected: utxo.value, value: associated_output.value });
            }
            let mut key_bytes: Vec<u8> = Vec::new();
            crate::crypto::push_bytes(&mut key_bytes, xpub);
            crate::crypto::push_bytes(&mut key_bytes, chain_code);
            let derived = crate::crypto::blake2b_256(&key_bytes);
            if !crate::keymap::KeyEq::key_eq(&derived, &associated_output.address.0) {
                proof {
                    if associated_output.address.0@ == blake2b_of(xpub@ + chain_code@) {
                        broadcast use vstd::array::group_array_axioms;
                        assert(key_bytes@ =~= xpub@ + chain_code@);
                        assert(derived =~= associated_output.address.0);
                    }
                }
                return Err(Error::OldUtxoInvalidPublicKey { utxo: *utxo, output: associated_output, witness: Witness::OldUtxo(*xpub, *chain_code, *signature) });
            }
            proof {
                assert(key_bytes@ =~= xpub@ + chain_code@);
            }
            let data = witness_utxo_bytes(&ledger.static_params.block0_initial_hash, transaction_id);
            if !ed25519_verify(&data, xpub, signature) {
                return Err(Error::OldUtxoInvalidSignature { utxo: *utxo, output: associated_output, witness: Witness::OldUtxo(*xpub, *chain_code, *signature) });
            }
            Ok(ledger)
        },
        Witness::Utxo(signature) => {
            let (new_utxos, associated_output) = match ledger.utxos.remove(&utxo.transaction_id, utxo.output_index) {
                Ok(x) => x,
                Err(e) => {
                    return Err(Error::UtxoError { source: e });
                },
            };
            ledger.utxos = new_utxos;
            if utxo.value != associated_output.value {
                return Err(Error::UtxoValueNotMatching { expected: utxo.value, value: associated_output.value });
            }
            let data = witness_utxo_bytes(&ledger.static_params.block0_initial_hash, transaction_id);
            let pk = match associated_output.address.public_key() {
                Some(pk) => pk,
                None => {
                    return Err(Error::UtxoInvalidSignature { utxo: *utxo, output: associated_output, witness: Witness::Utxo(*signature) });
                },
            };
            if !ed25519_verify(&data, &pk, signature) {
                return Err(Error::UtxoInvalidSignature { utxo: *utxo, output: associated_output, witness: Witness::Utxo(*signature) });
            }
            Ok(ledger)
        },
    }
}

fn input_account_verify(
    accounts: account::Ledger,
    msig: multisig::Ledger,
    block0_hash: &HeaderHash,
    transaction_id: &TransactionId,
    account: &AccountIdentifier,
    value: Value,
    witness: &Witness,
) -> (r: Result<(account::Ledger, multisig::Ledger), Error>)
    requires
        accounts.wf(),
        msig.wf(),
    ensures
        ({
            let m = TxModel {
                utxos: Map::empty(),
                oldutxos: Map::empty(),
                accounts: accounts@,
                multisig: msig@,
                multisig_keys: msig.participants@,
            };
            let step = input_step(m, *block0_hash, *transaction_id, Input::Account(*account, value), *witness);
            &&& step matches Err(e) ==> r == Err::<(account::Ledger, multisig::Ledger), Error>(e)
            &&& step matches Ok(t) ==> (r matches Ok((a, ms)) && a.wf() && ms.wf() && a@ == t.accounts && ms@
                == t.multisig && ms.participants@ == msig.participants@ && sum_values(a.values()) + sum_values(
                ms.values(),
            ) == sum_values(accounts.values()) + sum_values(msig.values()) - value.0)
        }),
{
    match witness {
        Witness::OldUtxo(_, _, _) => Err(Error::ExpectingAccountWitness),
        Witness::Utxo(_) => Err(Error::ExpectingAccountWitness),
        Witness::Account(sig) => {
            let st = match accounts.get_state(account) {
                Ok(st) => st,
                Err(e) => {
                    return Err(Error::Account { source: e });
                },
            };
            if st.value.0 < value.0 {
                return Err(Error::Account { source: account::LedgerError::InsufficientFunds });
            }
            if st.counter == u32::MAX {
                return Err(Error::Account { source: account::LedgerError::SpendingCounterExhausted });
            }
            let data = witness_account_bytes(block0_hash, transaction_id, st.counter);
            if !ed25519_verify(&data, account, sig) {
                return Err(Error::AccountInvalidSignature { account: *account, witness: Witness::Account(*sig) });
            }
            match accounts.remove_value(account, value) {
                Ok((a, _)) => Ok((a, msig)),
                Err(e) => Err(Error::Account { source: e }),
            }
        },
        Witness::Multisig(sigs) => {
            let st = match msig.accounts.get(account) {
                Some(st) => *st,
                None => {
                    return Err(Error::Multisig { source: multisig::LedgerError::NonExistent });
                },
            };
            if st.value.0 < value.0 {
                return Err(Error::Multisig { source: multisig::LedgerError::InsufficientFunds });
            }
            if st.counter == u32::MAX {
                return Err(Error::Multisig { source: multisig::LedgerError::SpendingCounterExhausted });
            }
            let data = witness_multisig_bytes(block0_hash, transaction_id, st.counter);
            if !msig.verify(account, sigs, &data) {
                return Err(Error::MultisigInvalidSignature { multisig: *account });
            }
            match msig.remove_value(account, value) {
                Ok((ms, _)) => Ok((accounts, ms)),
                Err(e) => Err(Error::Multisig { source: e }),
            }
        },
    }
}

pub open spec fn input_values(inputs: Seq<Input>) -> Seq<Value> {
    inputs.map_values(|i: Input| i.spec_value())
}

/// The first `n` inputs spent, in order, each with the witness at its
/// position; the first failure wins.
pub open spec fn inputs_upto(
    m: TxModel,
    block0: Digest,
    txid: TransactionId,
    inputs: Seq<Input>,
    witnesses: Seq<Witness>,
    n: int,
) -> Result<TxModel, Error>
    decreases n,
{
    if n <= 0 {
        Ok(m)
    } else {
        match inputs_upto(m, block0, txid, inputs, witnesses, n - 1) {
            Err(e) => Err(e),
            Ok(m2) => input_step(m2, block0, txid, inputs[n - 1], witnesses[n - 1]),
        }
    }
}

pub proof fn lemma_inputs_err(
    m: TxModel,
    block0: Digest,
    txid: TransactionId,
    inputs: Seq<Input>,
    witnesses: Seq<Witness>,
    n0: int,
    n: int,
)
    requires
        0 <= n0 <= n,
        inputs_upto(m, block0, txid, inputs, witnesses, n0) is Err,
    ensures
        inputs_upto(m, block0, txid, inputs, witnesses, n) == inputs_upto(m, block0, txid, inputs, witnesses, n0),
    decreases n - n0,
{
    if n > n0 {
        lemma_inputs_err(m, block0, txid, inputs, witnesses, n0, n - 1);
    }
}

/// A transaction applied: arity checks, every input spent with its witness,
/// inputs balanced against outputs plus fee, then outputs materialised.
pub open spec fn apply_tx(
    m: TxModel,
    static_params: LedgerStaticParameters,
    txid: TransactionId,
    inputs: Seq<Input>,
    outputs: Seq<Output<Address>>,
    witnesses: Seq<Witness>,
    fee: Value,
) -> Result<TxModel, Error> {
    if inputs.len() > MAX_TRANSACTION_INPUTS_COUNT {
        Err(Error::TransactionHasTooManyInputs { expected: MAX_TRANSACTION_INPUTS_COUNT, actual: inputs.len() as usize })
    } else if outputs.len() > MAX_TRANSACTION_OUTPUTS_COUNT {
        Err(Error::TransactionHasTooManyOutputs { expected: MAX_TRANSACTION_OUTPUTS_COUNT, actual: outputs.len() as usize })
    } else if witnesses.len() > MAX_TRANSACTION_WITNESSES_COUNT {
        Err(
            Error::TransactionHasTooManyWitnesses { expected: MAX_TRANSACTION_WITNESSES_COUNT, actual: witnesses.len() as usize },
        )
    } else if inputs.len() != witnesses.len() {
        Err(Error::NotEnoughSignatures { actual: witnesses.len() as usize, expected: inputs.len() as usize })
    } else {
        match inputs_upto(m, static_params.block0_initial_hash, txid, inputs, witnesses, inputs.len() as int) {
            Err(e) => Err(e),
            Ok(m2) => {
                let total_in = sum_values(input_values(inputs));
                let total_out = sum_values(output_values(outputs)) + fee.0;
                if total_in > u64::MAX {
                    Err(Error::UtxoInputsTotal { error: ValueError::Overflow })
                } else if total_out > u64::MAX {
                    Err(Error::UtxoOutputsTotal { error: ValueError::Overflow })
                } else if total_in != total_out {
                    Err(Error::NotBalanced { inputs: Value(total_in as u64), outputs: Value(total_out as u64) })
                } else {
                    materialize(m2, static_params.discrimination, txid, outputs)
                }
            },
        }
    }
}

fn values_of_outputs(outputs: &Vec<Output<Address>>) -> (r: Vec<Value>)
    ensures
        r@ == output_values(outputs@),
{
    let mut output_vals: Vec<Value> = Vec::new();
    let mut j: usize = 0;
    while j < outputs.len()
        invariant
            0 <= j <= outputs@.len(),
            output_vals@ == output_values(outputs@).subrange(0, j as int),
        decreases outputs@.len() - j,
    {
        output_vals.push(outputs[j].value);
        proof {
            assert(output_vals@ =~= output_values(outputs@).subrange(0, j + 1));
        }
        j += 1;
    }
    proof {
        assert(output_vals@ =~= output_values(outputs@));
    }
    output_vals
}

/// Applies a transaction whose fee is already known.
fn internal_apply_transaction(
    ledger: Ledger,
    transaction_id: &TransactionId,
    inputs: &Vec<Input>,
    outputs: &Vec<Output<Address>>,
    witnesses: &Vec<Witness>,
    fee: Value,
) -> (r: Result<Ledger, Error>)
    requires
        ledger.wf(),
    ensures
        apply_tx(ledger.tx_model(), ledger.static_params, *transaction_id, inputs@, outputs@, witnesses@, fee) matches Err(e)
            ==> r == Err::<Ledger, Error>(e),
        apply_tx(ledger.tx_model(), ledger.static_params, *transaction_id, inputs@, outputs@, witnesses@, fee) matches Ok(t)
            ==> (r matches Ok(l) && l.wf() && l.tx_model() == t && keeps_rest(l, ledger) && l.total_value() + fee.0
            == ledger.total_value()),
{
    if inputs.len() > MAX_TRANSACTION_INPUTS_COUNT {
        return Err(Error::TransactionHasTooManyInputs { expected: MAX_TRANSACTION_INPUTS_COUNT, actual: inputs.len() });
    }
    if outputs.len() > MAX_TRANSACTION_OUTPUTS_COUNT {
        return Err(Error::TransactionHasTooManyOutputs { expected: MAX_TRANSACTION_OUTPUTS_COUNT, actual: outputs.len() });
    }
    if witnesses.len() > MAX_TRANSACTION_WITNESSES_COUNT {
        return Err(
            Error::TransactionHasTooManyWitnesses { expected: MAX_TRANSACTION_WITNESSES_COUNT, actual: witnesses.len() },
        );
    }
    if inputs.len() != witnesses.len() {
        return Err(Error::NotEnoughSignatures { expected: inputs.len(), actual: witnesses.len() });
    }
    let ghost m0 = ledger.tx_model();
    let ghost block0 = ledger.static_params.block0_initial_hash;
    let mut cur = ledger;
    let mut input_vals: Vec<Value> = Vec::new();
    let mut i: usize = 0;
    proof {
        assert(input_values(inputs@).subrange(0, 0) =~= Seq::<Value>::empty());
    }
    while i < inputs.len()
        invariant
            0 <= i <= inputs@.len() == witnesses@.len(),
            inputs@.len() <= MAX_TRANSACTION_INPUTS_COUNT,
            outputs@.len() <= MAX_TRANSACTION_OUTPUTS_COUNT,
            witnesses@.len() <= MAX_TRANSACTION_WITNESSES_COUNT,
            cur.wf(),
            ledger.wf(),
            m0 == ledger.tx_model(),
            block0 == ledger.static_params.block0_initial_hash,
            keeps_rest(cur, ledger),
            inputs_upto(m0, block0, *transaction_id, inputs@, witnesses@, i as int) == Ok::<TxModel, Error>(cur.tx_model()),
            input_vals@ == input_values(inputs@).subrange(0, i as int),
            cur.total_value() == ledger.total_value() - sum_values(input_vals@),
        decreases inputs@.len() - i,
    {
        let input = inputs[i];
        let ghost before = cur;
        proof {
            lemma_sum_values_push(input_vals@, input.spec_value());
        }
        match input {
            Input::Utxo(utxo) => {
                cur = match input_utxo_verify(cur, transaction_id, &utxo, &witnesses[i]) {
                    Ok(l) => l,
                    Err(e) => {
                        proof {
                            lemma_inputs_err(m0, block0, *transaction_id, inputs@, witnesses@, i + 1, inputs@.len() as int);
                        }
                        return Err(e);
                    },
                };
            },
            Input::Account(account_id, value) => {
                let Ledger { utxos, oldutxos, accounts, settings, updates, multisig, delegation, static_params, date, chain_length } = cur;
                let (single, multi) = match input_account_verify(
                    accounts,
                    multisig,
                    &static_params.block0_initial_hash,
                    transaction_id,
                    &account_id,
                    value,
                    &witnesses[i],
                ) {
                    Ok(x) => x,
                    Err(e) => {
                        proof {
                            lemma_inputs_err(m0, block0, *transaction_id, inputs@, witnesses@, i + 1, inputs@.len() as int);
                        }
                        return Err(e);
                    },
                };
                cur = Ledger { utxos, oldutxos, accounts: single, settings, updates, multisig: multi, delegation, static_params, date, chain_length };
                proof {
                    let m = before.tx_model();
                    let m2 = TxModel { utxos: Map::empty(), oldutxos: Map::empty(), ..m };
                    let step = input_step(m, block0, *transaction_id, input, witnesses@[i as int]);
                    let step2 = input_step(m2, block0, *transaction_id, input, witnesses@[i as int]);
                    assert(step2 matches Ok(t2) && step matches Ok(t) && t.accounts == t2.accounts && t.multisig == t2.multisig
                        && t.utxos == m.utxos && t.oldutxos == m.oldutxos && t.multisig_keys == m.multisig_keys);
                    assert(cur.tx_model() == step->Ok_0);
                }
            },
        }
        input_vals.push(input.value());
        proof {
            assert(input_values(inputs@).subrange(0, i + 1) =~= input_values(inputs@).subrange(0, i as int).push(input.spec_value()));
        }
        i += 1;
    }
    proof {
        assert(input_values(inputs@).subrange(0, inputs@.len() as int) == input_values(inputs@));
    }
    let total_input = match Value::sum(&input_vals) {
        Ok(v) => v,
        Err(e) => {
            return Err(Error::UtxoInputsTotal { error: e });
        },
    };
    let mut output_vals = values_of_outputs(outputs);
    proof {
        lemma_sum_values_push(output_vals@, fee);
    }
    output_vals.push(fee);
    let total_output = match Value::sum(&output_vals) {
        Ok(v) => v,
        Err(e) => {
            return Err(Error::UtxoOutputsTotal { error: e });
        },
    };
    if total_input != total_output {
        return Err(Error::NotBalanced { inputs: total_input, outputs: total_output });
    }
    proof {
        let ma = cur.tx_model();
        let mb = TxModel {
            utxos: cur.utxos@,
            oldutxos: Map::empty(),
            accounts: cur.accounts@,
            multisig: cur.multisig@,
            multisig_keys: cur.multisig.participants@,
        };
        let d = cur.static_params.discrimination;
        let ra = materialize(ma, d, *transaction_id, outputs@);
        let rb = materialize(mb, d, *transaction_id, outputs@);
        assert(ra is Err ==> ra == rb);
        assert(ra matches Ok(t) ==> rb matches Ok(t2) && t.utxos == t2.utxos && t.accounts == t2.accounts
            && t.multisig == t2.multisig && t.oldutxos == ma.oldutxos && t.multisig_keys == ma.multisig_keys);
    }
    let Ledger { utxos, oldutxos, accounts, settings, updates, multisig, delegation, static_params, date, chain_length } = cur;
    let (new_utxos, new_accounts, new_multisig) = match internal_apply_transaction_output(
        utxos,
        accounts,
        multisig,
        &static_params,
        transaction_id,
        outputs,
    ) {
        Ok(x) => x,
        Err(e) => {
            return Err(e);
        },
    };
    Ok(Ledger {
        utxos: new_utxos,
        oldutxos,
        accounts: new_accounts,
        settings,
        updates,
        multisig: new_multisig,
        delegation,
        static_params,
        date,
        chain_length,
    })
}

/// A transaction with its fee applied to the value-bearing sub-ledgers.
pub open spec fn tx_outcome(
    m: LedgerModel,
    txid: TransactionId,
    tx: Transaction,
    witnesses: Seq<Witness>,
    fees: LinearFee,
) -> Result<(TxModel, Value), Error> {
    let fee = fee_for(fees, tx.inputs@.len() as int, tx.outputs@.len() as int);
    if fee > u64::MAX {
        Err(Error::FeeCalculationError { error: ValueError::Overflow })
    } else {
        match apply_tx(m.tx, m.static_params, txid, tx.inputs@, tx.outputs@, witnesses, Value(fee as u64)) {
            Err(e) => Err(e),
            Ok(t) => Ok((t, Value(fee as u64))),
        }
    }
}

/// The effect of a certificate's content on accounts and the pool registry.
pub open spec fn cert_effect(
    accounts: Map<AccountIdentifier, AccountState>,
    pools: Map<StakePoolId, StakePoolInfoModel>,
    c: CertificateContent,
) -> Result<(Map<AccountIdentifier, AccountState>, Map<StakePoolId, StakePoolInfoModel>), Error> {
    match c {
        CertificateContent::StakeDelegation(d) => if !pools.contains_key(d.pool_id) {
            Err(Error::Delegation { source: DelegationError::StakeDelegationPoolKeyIsInvalid(d.pool_id) })
        } else if !accounts.contains_key(d.stake_key_id) {
            Err(Error::Account { source: account::LedgerError::NonExistent })
        } else {
            Ok(
                (
                    accounts.insert(d.stake_key_id, AccountState { delegation: Some(d.pool_id), ..accounts[d.stake_key_id] }),
                    pools,
                ),
            )
        },
        CertificateContent::StakePoolRegistration(info) => {
            let id = StakePoolId(digest_of(pool_id_preimage(info@)));
            if pools.contains_key(id) {
                Err(Error::Delegation { source: DelegationError::StakePoolAlreadyRegistered(id) })
            } else {
                Ok((accounts, pools.insert(id, info@)))
            }
        },
        CertificateContent::StakePoolRetirement(r) => if !pools.contains_key(r.pool_id) {
            Err(Error::Delegation { source: DelegationError::StakePoolDoesNotExist(r.pool_id) })
        } else {
            Ok((accounts, pools.remove(r.pool_id)))
        },
    }
}

/// A certificate-carrying transaction: the certificate's signatures, the
/// transaction, then the certificate's effect.
pub open spec fn cert_outcome(m: LedgerModel, ac: AuthenticatedCertificateTransaction, fees: LinearFee) -> Result<
    LedgerModel,
    Error,
> {
    if !certificate_verified(ac.certificate, m.delegation) {
        Err(Error::CertificateInvalidSignature)
    } else {
        match tx_outcome(
            m,
            digest_of(certificate_transaction_bytes(ac.transaction, ac.certificate)),
            ac.transaction,
            ac.witnesses@,
            fees,
        ) {
            Err(e) => Err(e),
            Ok((t, _)) => match cert_effect(t.accounts, m.delegation, ac.certificate.content) {
                Err(e) => Err(e),
                Ok((a, p)) => Ok(LedgerModel { tx: TxModel { accounts: a, ..t }, delegation: p, ..m }),
            },
        }
    }
}

/// One fragment of a normal block applied at `date`.
#[verifier::opaque]
pub open spec fn fragment_outcome(m: LedgerModel, fees: LinearFee, frag: Message, date: BlockDate) -> Result<LedgerModel, Error> {
    match frag {
        Message::Initial(_) => Err(Error::Block0 { source: Block0Error::OnlyMessageReceived }),
        Message::OldUtxoDeclaration(_) => Err(Error::Block0 { source: Block0Error::OnlyMessageReceived }),
        Message::Transaction(at) => match tx_outcome(
            m,
            digest_of(transaction_bytes(at.transaction)),
            at.transaction,
            at.witnesses@,
            fees,
        ) {
            Err(e) => Err(e),
            Ok((t, _)) => Ok(LedgerModel { tx: t, ..m }),
        },
        Message::Certificate(ac) => cert_outcome(m, ac, fees),
        Message::UpdateProposal(p) => match proposal_result(
            m.updates,
            digest_of(signed_proposal_bytes(p.proposal.proposal.changes@, p.proposal.proposer_id, p.signature)),
            p,
            m.settings.bft_leaders,
            date,
        ) {
            Err(e) => Err(Error::Update { source: e }),
            Ok(u) => Ok(LedgerModel { updates: u, ..m }),
        },
        Message::UpdateVote(v) => match vote_result(m.updates, v, m.settings, date) {
            Err(e) => Err(Error::Update { source: e }),
            Ok(u) => Ok(LedgerModel { updates: u, ..m }),
        },
    }
}

/// The fee a fragment pays.
pub open spec fn fragment_fee(frag: Message, fees: LinearFee) -> int {
    match frag {
        Message::Transaction(at) => fee_for(fees, at.transaction.inputs@.len() as int, at.transaction.outputs@.len() as int),
        Message::Certificate(ac) => fee_for(fees, ac.transaction.inputs@.len() as int, ac.transaction.outputs@.len() as int),
        _ => 0,
    }
}

/// Fragments applied in order; the first failure wins.
pub open spec fn fragments_upto(m: LedgerModel, fees: LinearFee, frags: Seq<Message>, date: BlockDate, n: int) -> Result<
    LedgerModel,
    Error,
>
    decreases n,
{
    if n <= 0 {
        Ok(m)
    } else {
        match fragments_upto(m, fees, frags, date, n - 1) {
            Err(e) => Err(e),
            Ok(m2) => fragment_outcome(m2, fees, frags[n - 1], date),
        }
    }
}

/// The fees the first `n` fragments pay.
pub open spec fn fragments_fee(frags: Seq<Message>, fees: LinearFee, n: int) -> int
    decreases n,
{
    if n <= 0 {
        0
    } else {
        fragments_fee(frags, fees, n - 1) + fragment_fee(frags[n - 1], fees)
    }
}

pub proof fn lemma_fragments_err(m: LedgerModel, fees: LinearFee, frags: Seq<Message>, date: BlockDate, n0: int, n: int)
    requires
        0 <= n0 <= n,
        fragments_upto(m, fees, frags, date, n0) is Err,
    ensures
        fragments_upto(m, fees, frags, date, n) == fragments_upto(m, fees, frags, date, n0),
    decreases n - n0,
{
    if n > n0 {
        lemma_fragments_err(m, fees, frags, date, n0, n - 1);
    }
}

/// A fragment changes neither the settings nor the static parameters, the
/// date or the chain length.
pub proof fn lemma_fragment_keeps_frame(m: LedgerModel, fees: LinearFee, frag: Message, date: BlockDate)
    requires
        fragment_outcome(m, fees, frag, date) is Ok,
    ensures
        ({
            let m2 = fragment_outcome(m, fees, frag, date)->Ok_0;
            &&& m2.settings == m.settings
            &&& m2.static_params == m.static_params
            &&& m2.date == m.date
            &&& m2.chain_length == m.chain_length
        }),
{
    reveal(fragment_outcome);
}

/// The chain length after one more block; a chain at the largest length
/// takes no further block.
pub open spec fn next_length(c: ChainLength) -> ChainLength
    recommends
        c.0 < u32::MAX,
{
    ChainLength((c.0 + 1) as u32)
}

/// The consensus nonce with a header's contribution hashed in, if any.
pub open spec fn mix_nonce(nonce: Digest, contribution: Option<Digest>) -> Digest {
    match contribution {
        None => nonce,
        Some(c) => digest_of(nonce@ + c@),
    }
}

/// The snapshot after a block's fragments: the block's date, and the
/// header's nonce contribution mixed in.
pub open spec fn finish_block(m: LedgerModel, meta: HeaderContentEvalContext) -> LedgerModel {
    LedgerModel {
        date: meta.block_date,
        settings: SettingsModel { consensus_nonce: mix_nonce(m.settings.consensus_nonce, meta.nonce), ..m.settings },
        ..m
    }
}

/// A block applied to `l`: framing checks, proposals processed at the
/// boundary, the fragments with the fees then in force, then the new date
/// and nonce.
pub open spec fn block_outcome(l: Ledger, frags: Seq<Message>, meta: HeaderContentEvalContext) -> Result<LedgerModel, Error> {
    let expected = next_length(l.chain_length);
    if l.chain_length.0 == u32::MAX {
        Err(Error::ChainLengthExhausted { chain_length: l.chain_length })
    } else if meta.chain_length != expected {
        Err(Error::WrongChainLength { actual: meta.chain_length, expected })
    } else if !date_lt(l.date, meta.block_date) {
        Err(Error::NonMonotonicDate { block_date: meta.block_date, chain_date: l.date })
    } else {
        match process(model_entries(l.updates.proposals), l.settings@, meta.block_date) {
            Err(e) => Err(Error::Update { source: update::Error::Setting(e) }),
            Ok((kept, s)) => {
                let m0 = LedgerModel { settings: s, updates: entries_map(kept), chain_length: expected, ..l.model() };
                match fragments_upto(m0, s.linear_fees, frags, meta.block_date, frags.len() as int) {
                    Err(e) => Err(e),
                    Ok(m) => Ok(finish_block(m, meta)),
                }
            },
        }
    }
}

/// The bootstrap settings an initial fragment gave so far, and the other
/// parameters in order.
pub struct BootModel {
    pub block0_date: Option<Block0Date>,
    pub discrimination: Option<Discrimination>,
    pub slot_duration: Option<u8>,
    pub slots_per_epoch: Option<u32>,
    pub kes_update_speed: Option<u32>,
    pub rest: Seq<ConfigParam>,
}

pub open spec fn boot_step(b: BootModel, p: ConfigParam) -> Result<BootModel, Block0Error> {
    match p {
        ConfigParam::Block0Date(d) => if b.block0_date is Some {
            Err(Block0Error::InitialMessageDuplicateBlock0Date)
        } else {
            Ok(BootModel { block0_date: Some(d), ..b })
        },
        ConfigParam::Discrimination(d) => if b.discrimination is Some {
            Err(Block0Error::InitialMessageDuplicateDiscrimination)
        } else {
            Ok(BootModel { discrimination: Some(d), ..b })
        },
        ConfigParam::SlotDuration(d) => if b.slot_duration is Some {
            Err(Block0Error::InitialMessageDuplicateSlotDuration)
        } else {
            Ok(BootModel { slot_duration: Some(d), ..b })
        },
        ConfigParam::SlotsPerEpoch(n) => if b.slots_per_epoch is Some {
            Err(Block0Error::InitialMessageDuplicateSlotsPerEpoch)
        } else {
            Ok(BootModel { slots_per_epoch: Some(n), ..b })
        },
        ConfigParam::KESUpdateSpeed(n) => if b.kes_update_speed is Some {
            Err(Block0Error::InitialMessageDuplicateKesUpdateSpeed)
        } else {
            Ok(BootModel { kes_update_speed: Some(n), ..b })
        },
        _ => Ok(BootModel { rest: b.rest.push(p), ..b }),
    }
}

/// The first `n` initial parameters scanned; the first duplicate wins.
pub open spec fn boot_upto(ps: Seq<ConfigParam>, n: int) -> Result<BootModel, Block0Error>
    decreases n,
{
    if n <= 0 {
        Ok(
            BootModel {
                block0_date: None,
                discrimination: None,
                slot_duration: None,
                slots_per_epoch: None,
                kes_update_speed: None,
                rest: Seq::empty(),
            },
        )
    } else {
        match boot_upto(ps, n - 1) {
            Err(e) => Err(e),
            Ok(b) => boot_step(b, ps[n - 1]),
        }
    }
}

pub proof fn lemma_boot_err(ps: Seq<ConfigParam>, n0: int, n: int)
    requires
        0 <= n0 <= n,
        boot_upto(ps, n0) is Err,
    ensures
        boot_upto(ps, n) == boot_upto(ps, n0),
    decreases n - n0,
{
    if n > n0 {
        lemma_boot_err(ps, n0, n - 1);
    }
}

/// The ledger an initial fragment sets up, before the other genesis fragments.
pub open spec fn genesis_start(block0_hash: HeaderHash, ps: Seq<ConfigParam>) -> Result<LedgerModel, Error> {
    match boot_upto(ps, ps.len() as int) {
        Err(e) => Err(Error::Block0 { source: e }),
        Ok(b) => if b.block0_date is None {
            Err(Error::Block0 { source: Block0Error::InitialMessageNoDate })
        } else if b.discrimination is None {
            Err(Error::Block0 { source: Block0Error::InitialMessageNoDiscrimination })
        } else if b.slot_duration is None {
            Err(Error::Block0 { source: Block0Error::InitialMessageNoSlotDuration })
        } else if b.slots_per_epoch is None {
            Err(Error::Block0 { source: Block0Error::InitialMessageNoSlotsPerEpoch })
        } else if b.kes_update_speed is None {
            Err(Error::Block0 { source: Block0Error::InitialMessageNoKesUpdateSpeed })
        } else {
            let era = TimeEra {
                slot0_seconds: b.block0_date->Some_0.0,
                slot_duration: b.slot_duration->Some_0,
                epoch_start: 0,
                slots_per_epoch: b.slots_per_epoch->Some_0,
            };
            match apply_params(default_settings(era), b.rest) {
                Err(e) => Err(Error::Config { source: e }),
                Ok(s) => if s.bft_leaders.len() == 0 {
                    Err(Error::Block0 { source: Block0Error::InitialMessageNoConsensusLeaderId })
                } else {
                    Ok(
                        LedgerModel {
                            tx: TxModel {
                                utxos: Map::empty(),
                                oldutxos: Map::empty(),
                                accounts: Map::empty(),
                                multisig: Map::empty(),
                                multisig_keys: Map::empty(),
                            },
                            settings: s,
                            updates: Map::empty(),
                            delegation: Map::empty(),
                            static_params: LedgerStaticParameters {
                                block0_initial_hash: block0_hash,
                                block0_start_time: b.block0_date->Some_0,
                                discrimination: b.discrimination->Some_0,
                                kes_update_speed: b.kes_update_speed->Some_0,
                            },
                            date: BlockDate { epoch: 0, slot_id: 0 },
                            chain_length: ChainLength(0),
                        },
                    )
                },
            }
        },
    }
}

/// The outputs a legacy declaration creates, indexed by position.
pub open spec fn declared_outputs(addrs: Seq<(OldAddress, Value)>) -> Seq<(u8, Output<OldAddress>)> {
    Seq::new(addrs.len(), |i: int| (i as u8, Output { address: addrs[i].0, value: addrs[i].1 }))
}

/// One fragment after the initial one in the genesis block.
pub open spec fn genesis_step(m: LedgerModel, frag: Message) -> Result<LedgerModel, Error> {
    match frag {
        Message::Initial(_) => Err(Error::Block0 { source: Block0Error::InitialMessageMany }),
        Message::OldUtxoDeclaration(decl) => if decl.addrs@.len() > MAX_TRANSACTION_OUTPUTS_COUNT {
            Err(
                Error::TransactionHasTooManyOutputs { expected: MAX_TRANSACTION_OUTPUTS_COUNT, actual: decl.addrs@.len() as usize },
            )
        } else {
            let txid = digest_of(declaration_body(decl.addrs@));
            if exists|k: IndexedKey| m.tx.oldutxos.contains_key(k) && k.digest == txid {
                Err(Error::UtxoError { source: utxo::Error::AlreadyExists })
            } else {
                Ok(
                    LedgerModel {
                        tx: TxModel { oldutxos: with_outputs(m.tx.oldutxos, txid, declared_outputs(decl.addrs@)), ..m.tx },
                        ..m
                    },
                )
            }
        },
        Message::Transaction(at) => if at.transaction.inputs@.len() != 0 {
            Err(Error::Block0 { source: Block0Error::TransactionHasInput })
        } else if at.witnesses@.len() != 0 {
            Err(Error::Block0 { source: Block0Error::TransactionHasWitnesses })
        } else if at.transaction.outputs@.len() > MAX_TRANSACTION_OUTPUTS_COUNT {
            Err(
                Error::TransactionHasTooManyOutputs {
                    expected: MAX_TRANSACTION_OUTPUTS_COUNT,
                    actual: at.transaction.outputs@.len() as usize,
                },
            )
        } else {
            match materialize(
                m.tx,
                m.static_params.discrimination,
                digest_of(transaction_bytes(at.transaction)),
                at.transaction.outputs@,
            ) {
                Err(e) => Err(e),
                Ok(t) => Ok(LedgerModel { tx: t, ..m }),
            }
        },
        Message::UpdateProposal(_) => Err(Error::Block0 { source: Block0Error::HasUpdateProposal }),
        Message::UpdateVote(_) => Err(Error::Block0 { source: Block0Error::HasUpdateVote }),
        Message::Certificate(ac) => if ac.transaction.inputs@.len() != 0 {
            Err(Error::Block0 { source: Block0Error::TransactionHasInput })
        } else if ac.witnesses@.len() != 0 {
            Err(Error::Block0 { source: Block0Error::TransactionHasWitnesses })
        } else if ac.transaction.outputs@.len() != 0 {
            Err(Error::Block0 { source: Block0Error::TransactionHasOutput })
        } else {
            match cert_effect(m.tx.accounts, m.delegation, ac.certificate.content) {
                Err(e) => Err(e),
                Ok((a, p)) => Ok(LedgerModel { tx: TxModel { accounts: a, ..m.tx }, delegation: p, ..m }),
            }
        },
    }
}

/// The genesis fragments from the second up to the `n`-th applied in order.
pub open spec fn genesis_upto(m: LedgerModel, frags: Seq<Message>, n: int) -> Result<LedgerModel, Error>
    decreases n,
{
    if n <= 1 {
        Ok(m)
    } else {
        match genesis_upto(m, frags, n - 1) {
            Err(e) => Err(e),
            Ok(m2) => genesis_step(m2, frags[n - 1]),
        }
    }
}

pub proof fn lemma_genesis_err(m: LedgerModel, frags: Seq<Message>, n0: int, n: int)
    requires
        1 <= n0 <= n,
        genesis_upto(m, frags, n0) is Err,
    ensures
        genesis_upto(m, frags, n) == genesis_upto(m, frags, n0),
    decreases n - n0,
{
    if n > n0 {
        lemma_genesis_err(m, frags, n0, n - 1);
    }
}

/// The value one genesis fragment brings into being.
pub open spec fn fragment_minted(frag: Message) -> int {
    match frag {
        Message::OldUtxoDeclaration(d) => sum_values(indexed_values(declared_outputs(d.addrs@))),
        Message::Transaction(at) => sum_values(output_values(at.transaction.outputs@)),
        _ => 0,
    }
}

/// The value the genesis fragments from the second up to the `n`-th bring
/// into being.
pub open spec fn genesis_minted(frags: Seq<Message>, n: int) -> int
    decreases n,
{
    if n <= 1 {
        0
    } else {
        genesis_minted(frags, n - 1) + fragment_minted(frags[n - 1])
    }
}

/// The ledger a genesis block creates, before its total value is checked.
#[verifier::opaque]
pub open spec fn genesis_outcome(block0_hash: HeaderHash, frags: Seq<Message>) -> Result<LedgerModel, Error> {
    if frags.len() == 0 {
        Err(Error::Block0 { source: Block0Error::InitialMessageMissing })
    } else {
        match frags[0] {
            Message::Initial(ps) => match genesis_start(block0_hash, ps@) {
                Err(e) => Err(e),
                Ok(m0) => genesis_upto(m0, frags, frags.len() as int),
            },
            _ => Err(Error::ExpectingInitialMessage),
        }
    }
}

fn apply_old_declaration(utxos: utxo::Ledger<OldAddress>, decl: &UtxoDeclaration) -> (r: Result<utxo::Ledger<OldAddress>, Error>)
    requires
        utxos.wf(),
        decl.addrs@.len() <= MAX_TRANSACTION_OUTPUTS_COUNT,
    ensures
        ({
            let txid = digest_of(declaration_body(decl.addrs@));
            &&& (exists|k: IndexedKey| utxos@.contains_key(k) && k.digest == txid) ==> r == Err::<
                utxo::Ledger<OldAddress>,
                Error,
            >(Error::UtxoError { source: utxo::Error::AlreadyExists })
            &&& !(exists|k: IndexedKey| utxos@.contains_key(k) && k.digest == txid) ==> (r matches Ok(u) && u.wf() && u@
                == with_outputs(utxos@, txid, declared_outputs(decl.addrs@)) && sum_values(u.values()) == sum_values(
                utxos.values(),
            ) + sum_values(indexed_values(declared_outputs(decl.addrs@))))
        }),
{
    let txid = decl.hash();
    let mut outputs: Vec<(u8, Output<OldAddress>)> = Vec::new();
    let mut i: usize = 0;
    while i < decl.addrs.len()
        invariant
            0 <= i <= decl.addrs@.len() <= MAX_TRANSACTION_OUTPUTS_COUNT,
            outputs@ == declared_outputs(decl.addrs@).subrange(0, i as int),
        decreases decl.addrs@.len() - i,
    {
        let (address, value) = decl.addrs[i];
        outputs.push((i as u8, Output { address, value }));
        proof {
            assert(outputs@ =~= declared_outputs(decl.addrs@).subrange(0, i + 1));
        }
        i += 1;
    }
    proof {
        assert(outputs@ =~= declared_outputs(decl.addrs@));
        let d = declared_outputs(decl.addrs@);
        assert forall|a: int, b: int| 0 <= a < d.len() && 0 <= b < d.len() && a != b implies d[a].0 != d[b].0 by {}
    }
    match utxos.add(&txid, &outputs) {
        Ok(u) => Ok(u),
        Err(e) => Err(Error::UtxoError { source: e }),
    }
}

/// `r` is what applying the block `frags` with header `meta` to `l` gives:
/// the outcome the block's rules decide, and a total value that shrank by
/// exactly the fees the fragments paid.
pub open spec fn block_applied(l: Ledger, frags: Seq<Message>, meta: HeaderContentEvalContext, r: Result<Ledger, Error>) -> bool {
    &&& block_outcome(l, frags, meta) matches Err(e) ==> r == Err::<Ledger, Error>(e)
    &&& block_outcome(l, frags, meta) matches Ok(m) ==> (r matches Ok(l2) && l2.wf() && l2.model() == m
        && l2.total_value() + fragments_fee(frags, m.settings.linear_fees, frags.len() as int) == l.total_value())
    &&& r matches Ok(l2) ==> {
        &&& l.chain_length.0 < u32::MAX
        &&& l2.chain_length.0 == l.chain_length.0 + 1
        &&& date_lt(l.date, l2.date)
        &&& l2.date == meta.block_date
        &&& l2.static_params == l.static_params
    }
}

impl Ledger {
    fn empty(settings: Settings, static_params: LedgerStaticParameters) -> (r: Ledger)
        ensures
            r.wf(),
            r.tx_model() == (TxModel {
                utxos: Map::empty(),
                oldutxos: Map::empty(),
                accounts: Map::empty(),
                multisig: Map::empty(),
                multisig_keys: Map::empty(),
            }),
            r.settings@ == settings@,
            r.updates@ == Map::<UpdateProposalId, ProposalStateModel>::empty(),
            r.delegation@ == Map::<StakePoolId, StakePoolInfoModel>::empty(),
            r.static_params == static_params,
            r.date == (BlockDate { epoch: 0, slot_id: 0 }),
            r.chain_length == ChainLength(0),
            r.total_value() == 0,
    {
        let l = Ledger {
            utxos: utxo::Ledger::new(),
            oldutxos: utxo::Ledger::new(),
            accounts: account::Ledger::new(),
            settings,
            updates: UpdateState::new(),
            multisig: multisig::Ledger::new(),
            delegation: DelegationState::new(),
            static_params,
            date: BlockDate::first(),
            chain_length: ChainLength(0),
        };
        proof {
            assert(l.multisig.participants@ =~= Map::<IndexedKey, Seq<u8>>::empty());
            assert(l.utxos.values() =~= Seq::<Value>::empty());
            assert(l.oldutxos.values() =~= Seq::<Value>::empty());
            assert(l.accounts.values() =~= Seq::<Value>::empty());
            assert(l.multisig.values() =~= Seq::<Value>::empty());
        }
        l
    }

    /// Checks that all the value the ledger holds fits in 64 bits.
    fn validate_utxo_total_value(&self) -> (r: Result<(), Error>)
        requires
            self.wf(),
        ensures
            r is Ok <==> self.total_value() <= u64::MAX,
            r is Err ==> r == Err::<(), Error>(Error::Block0 { source: Block0Error::UtxoTotalValueTooBig }),
    {
        proof {
            lemma_sum_values_nonneg(self.utxos.values());
            lemma_sum_values_nonneg(self.oldutxos.values());
            lemma_sum_values_nonneg(self.accounts.values());
            lemma_sum_values_nonneg(self.multisig.values());
        }
        let too_big = Error::Block0 { source: Block0Error::UtxoTotalValueTooBig };
        let old_total = match Value::sum(&self.oldutxos.values_vec()) {
            Ok(v) => v,
            Err(_) => {
                return Err(too_big);
            },
        };
        let new_total = match Value::sum(&self.utxos.values_vec()) {
            Ok(v) => v,
            Err(_) => {
                return Err(too_big);
            },
        };
        let account_value = match self.accounts.get_total_value() {
            Ok(v) => v,
            Err(_) => {
                return Err(too_big);
            },
        };
        let multisig_value = match self.multisig.get_total_value() {
            Ok(v) => v,
            Err(_) => {
                return Err(too_big);
            },
        };
        let t1 = match old_total.checked_add(new_total) {
            Ok(v) => v,
            Err(_) => {
                return Err(too_big);
            },
        };
        let t2 = match t1.checked_add(account_value) {
            Ok(v) => v,
            Err(_) => {
                return Err(too_big);
            },
        };
        match t2.checked_add(multisig_value) {
            Ok(_) => Ok(()),
            Err(_) => Err(too_big),
        }
    }

    /// Creates a ledger from the fragments of a genesis block.
    pub fn new(block0_initial_hash: HeaderHash, contents: &Vec<Message>) -> (r: Result<Ledger, Error>)
        ensures
            genesis_outcome(block0_initial_hash, contents@) matches Err(e) ==> r == Err::<Ledger, Error>(e),
            genesis_outcome(block0_initial_hash, contents@) matches Ok(m) ==> {
                let minted = genesis_minted(contents@, contents@.len() as int);
                &&& minted <= u64::MAX ==> (r matches Ok(l) && l.wf() && l.model() == m && l.total_value() == minted)
                &&& minted > u64::MAX ==> r == Err::<Ledger, Error>(
                    Error::Block0 { source: Block0Error::UtxoTotalValueTooBig },
                )
            },
    {
        proof {
            reveal(genesis_outcome);
        }
        if contents.len() == 0 {
            return Err(Error::Block0 { source: Block0Error::InitialMessageMissing });
        }
        let init_ents = match &contents[0] {
            Message::Initial(init_ents) => init_ents,
            _ => {
                return Err(Error::ExpectingInitialMessage);
            },
        };
        let ghost ps = init_ents@;
        let params = init_ents.iter();
        let mut regular_ents = ConfigParams::new();
        let mut block0_start_time: Option<Block0Date> = None;
        let mut slot_duration: Option<u8> = None;
        let mut discrimination: Option<Discrimination> = None;
        let mut slots_per_epoch: Option<u32> = None;
        let mut kes_update_speed: Option<u32> = None;
        let mut i: usize = 0;
        proof {
            assert(genesis_outcome(block0_initial_hash, contents@) == match genesis_start(block0_initial_hash, ps) {
                Err(e) => Err(e),
                Ok(m0) => genesis_upto(m0, contents@, contents@.len() as int),
            });
        }
        while i < params.len()
            invariant
                0 <= i <= params@.len(),
                params@ == ps,
                genesis_outcome(block0_initial_hash, contents@) == match genesis_start(block0_initial_hash, ps) {
                    Err(e) => Err(e),
                    Ok(m0) => genesis_upto(m0, contents@, contents@.len() as int),
                },
                boot_upto(ps, i as int) == Ok::<BootModel, Block0Error>(
                    BootModel {
                        block0_date: block0_start_time,
                        discrimination,
                        slot_duration,
                        slots_per_epoch,
                        kes_update_speed,
                        rest: regular_ents@,
                    },
                ),
            decreases params@.len() - i,
        {
            let param = params[i];
            match param {
                ConfigParam::Block0Date(d) => {
                    if block0_start_time.is_some() {
                        proof {
                            lemma_boot_err(ps, i + 1, ps.len() as int);
                        }
                        return Err(Error::Block0 { source: Block0Error::InitialMessageDuplicateBlock0Date });
                    }
                    block0_start_time = Some(d);
                },
                ConfigParam::Discrimination(d) => {
                    if discrimination.is_some() {
                        proof {
                            lemma_boot_err(ps, i + 1, ps.len() as int);
                        }
                        return Err(Error::Block0 { source: Block0Error::InitialMessageDuplicateDiscrimination });
                    }
                    discrimination = Some(d);
                },
                ConfigParam::SlotDuration(d) => {
                    if slot_duration.is_some() {
                        proof {
                            lemma_boot_err(ps, i + 1, ps.len() as int);
                        }
                        return Err(Error::Block0 { source: Block0Error::InitialMessageDuplicateSlotDuration });
                    }
                    slot_duration = Some(d);
                },
                ConfigParam::SlotsPerEpoch(n) => {
                    if slots_per_epoch.is_some() {
                        proof {
                            lemma_boot_err(ps, i + 1, ps.len() as int);
                        }
                        return Err(Error::Block0 { source: Block0Error::InitialMessageDuplicateSlotsPerEpoch });
                    }
                    slots_per_epoch = Some(n);
                },
                ConfigParam::KESUpdateSpeed(n) => {
                    if kes_update_speed.is_some() {
                        proof {
                            lemma_boot_err(ps, i + 1, ps.len() as int);
                        }
                        return Err(Error::Block0 { source: Block0Error::InitialMessageDuplicateKesUpdateSpeed });
                    }
                    kes_update_speed = Some(n);
                },
                _ => regular_ents.push(param),
            }
            i += 1;
        }
        let block0_start_time = match block0_start_time {
            Some(d) => d,
            None => {
                return Err(Error::Block0 { source: Block0Error::InitialMessageNoDate });
            },
        };
        let discrimination = match discrimination {
            Some(d) => d,
            None => {
                return Err(Error::Block0 { source: Block0Error::InitialMessageNoDiscrimination });
            },
        };
        let slot_duration = match slot_duration {
            Some(d) => d,
            None => {
                return Err(Error::Block0 { source: Block0Error::InitialMessageNoSlotDuration });
            },
        };
        let slots_per_epoch = match slots_per_epoch {
            Some(n) => n,
            None => {
                return Err(Error::Block0 { source: Block0Error::InitialMessageNoSlotsPerEpoch });
            },
        };
        let kes_update_speed = match kes_update_speed {
            Some(n) => n,
            None => {
                return Err(Error::Block0 { source: Block0Error::InitialMessageNoKesUpdateSpeed });
            },
        };
        let static_params = LedgerStaticParameters {
            block0_initial_hash,
            block0_start_time,
            discrimination,
            kes_update_speed,
        };
        let era = TimeEra { slot0_seconds: block0_start_time.0, slot_duration, epoch_start: 0, slots_per_epoch };
        let settings = match Settings::new(era).apply(&regular_ents) {
            Ok(s) => s,
            Err(e) => {
                return Err(Error::Config { source: e });
            },
        };
        if settings.bft_leaders.len() == 0 {
            return Err(Error::Block0 { source: Block0Error::InitialMessageNoConsensusLeaderId });
        }
        let mut ledger = Ledger::empty(settings, static_params);
        let ghost m0 = ledger.model();
        proof {
            assert(genesis_start(block0_initial_hash, ps) == Ok::<LedgerModel, Error>(m0));
        }
        let mut k: usize = 1;
        while k < contents.len()
            invariant
                1 <= k <= contents@.len(),
                ledger.wf(),
                genesis_outcome(block0_initial_hash, contents@) == genesis_upto(m0, contents@, contents@.len() as int),
                genesis_upto(m0, contents@, k as int) == Ok::<LedgerModel, Error>(ledger.model()),
                ledger.total_value() == genesis_minted(contents@, k as int),
            decreases contents@.len() - k,
        {
            match &contents[k] {
                Message::Initial(_) => {
                    proof {
                        lemma_genesis_err(m0, contents@, k + 1, contents@.len() as int);
                    }
                    return Err(Error::Block0 { source: Block0Error::InitialMessageMany });
                },
                Message::OldUtxoDeclaration(old) => {
                    if old.addrs.len() > MAX_TRANSACTION_OUTPUTS_COUNT {
                        proof {
                            lemma_genesis_err(m0, contents@, k + 1, contents@.len() as int);
                        }
                        return Err(
                            Error::TransactionHasTooManyOutputs {
                                expected: MAX_TRANSACTION_OUTPUTS_COUNT,
                                actual: old.addrs.len(),
                            },
                        );
                    }
                    let Ledger { utxos, oldutxos, accounts, settings, updates, multisig, delegation, static_params, date, chain_length } = ledger;
                    let oldutxos = match apply_old_declaration(oldutxos, old) {
                        Ok(o) => o,
                        Err(e) => {
                            proof {
                                lemma_genesis_err(m0, contents@, k + 1, contents@.len() as int);
                            }
                            return Err(e);
                        },
                    };
                    ledger = Ledger { utxos, oldutxos, accounts, settings, updates, multisig, delegation, static_params, date, chain_length };
                },
                Message::Transaction(authenticated_tx) => {
                    if authenticated_tx.transaction.inputs.len() != 0 {
                        proof {
                            lemma_genesis_err(m0, contents@, k + 1, contents@.len() as int);
                        }
                        return Err(Error::Block0 { source: Block0Error::TransactionHasInput });
                    }
                    if authenticated_tx.witnesses.len() != 0 {
                        proof {
                            lemma_genesis_err(m0, contents@, k + 1, contents@.len() as int);
                        }
                        return Err(Error::Block0 { source: Block0Error::TransactionHasWitnesses });
                    }
                    if authenticated_tx.transaction.outputs.len() > MAX_TRANSACTION_OUTPUTS_COUNT {
                        proof {
                            lemma_genesis_err(m0, contents@, k + 1, contents@.len() as int);
                        }
                        return Err(
                            Error::TransactionHasTooManyOutputs {
                                expected: MAX_TRANSACTION_OUTPUTS_COUNT,
                                actual: authenticated_tx.transaction.outputs.len(),
                            },
                        );
                    }
                    let transaction_id = authenticated_tx.transaction.hash();
                    proof {
                        let ma = ledger.tx_model();
                        let mb = TxModel {
                            utxos: ledger.utxos@,
                            oldutxos: Map::empty(),
                            accounts: ledger.accounts@,
                            multisig: ledger.multisig@,
                            multisig_keys: ledger.multisig.participants@,
                        };
                        let d = ledger.static_params.discrimination;
                        let ra = materialize(ma, d, transaction_id, authenticated_tx.transaction.outputs@);
                        let rb = materialize(mb, d, transaction_id, authenticated_tx.transaction.outputs@);
                        assert(ra is Err ==> ra == rb);
                        assert(ra matches Ok(t) ==> rb matches Ok(t2) && t.utxos == t2.utxos && t.accounts == t2.accounts
                            && t.multisig == t2.multisig && t.oldutxos == ma.oldutxos && t.multisig_keys == ma.multisig_keys);
                    }
                    let Ledger { utxos, oldutxos, accounts, settings, updates, multisig, delegation, static_params, date, chain_length } = ledger;
                    let (utxos, accounts, multisig) = match internal_apply_transaction_output(
                        utxos,
                        accounts,
                        multisig,
                        &static_params,
                        &transaction_id,
                        &authenticated_tx.transaction.outputs,
                    ) {
                        Ok(x) => x,
                        Err(e) => {
                            proof {
                                lemma_genesis_err(m0, contents@, k + 1, contents@.len() as int);
                            }
                            return Err(e);
                        },
                    };
                    ledger = Ledger { utxos, oldutxos, accounts, settings, updates, multisig, delegation, static_params, date, chain_length };
                },
                Message::UpdateProposal(_) => {
                    proof {
                        lemma_genesis_err(m0, contents@, k + 1, contents@.len() as int);
                    }
                    return Err(Error::Block0 { source: Block0Error::HasUpdateProposal });
                },
                Message::UpdateVote(_) => {
                    proof {
                        lemma_genesis_err(m0, contents@, k + 1, contents@.len() as int);
                    }
                    return Err(Error::Block0 { source: Block0Error::HasUpdateVote });
                },
                Message::Certificate(authenticated_cert_tx) => {
                    if authenticated_cert_tx.transaction.inputs.len() != 0 {
                        proof {
                            lemma_genesis_err(m0, contents@, k + 1, contents@.len() as int);
                        }
                        return Err(Error::Block0 { source: Block0Error::TransactionHasInput });
                    }
                    if authenticated_cert_tx.witnesses.len() != 0 {
                        proof {
                            lemma_genesis_err(m0, contents@, k + 1, contents@.len() as int);
                        }
                        return Err(Error::Block0 { source: Block0Error::TransactionHasWitnesses });
                    }
                    if authenticated_cert_tx.transaction.outputs.len() != 0 {
                        proof {
                            lemma_genesis_err(m0, contents@, k + 1, contents@.len() as int);
                        }
                        return Err(Error::Block0 { source: Block0Error::TransactionHasOutput });
                    }
                    ledger = match ledger.apply_certificate_content(&authenticated_cert_tx.certificate.content) {
                        Ok(l) => l,
                        Err(e) => {
                            proof {
                                lemma_genesis_err(m0, contents@, k + 1, contents@.len() as int);
                            }
                            return Err(e);
                        },
                    };
                },
            }
            k += 1;
        }
        ledger.validate_utxo_total_value()?;
        Ok(ledger)
    }

    pub fn dup(&self) -> (r: Ledger)
        requires
            self.wf(),
        ensures
            r.wf(),
            r.model() == self.model(),
            model_entries(r.updates.proposals) == model_entries(self.updates.proposals),
            r.total_value() == self.total_value(),
    {
        Ledger {
            utxos: self.utxos.dup(),
            oldutxos: self.oldutxos.dup(),
            accounts: self.accounts.dup(),
            settings: self.settings.dup(),
            updates: self.updates.dup(),
            multisig: self.multisig.dup(),
            delegation: self.delegation.dup(),
            static_params: self.static_params,
            date: self.date,
            chain_length: self.chain_length,
        }
    }

    /// Applies a transaction, charging the fee `dyn_params` gives for it;
    /// hands back the new ledger and the fee.
    pub fn apply_transaction(self, signed_tx: &AuthenticatedTransaction, dyn_params: &LedgerParameters) -> (r: Result<
        (Ledger, Value),
        Error,
    >)
        requires
            self.wf(),
        ensures
            ({
                let o = tx_outcome(
                    self.model(),
                    digest_of(transaction_bytes(signed_tx.transaction)),
                    signed_tx.transaction,
                    signed_tx.witnesses@,
                    dyn_params.fees,
                );
                &&& o matches Err(e) ==> r == Err::<(Ledger, Value), Error>(e)
                &&& o matches Ok((t, fee)) ==> (r matches Ok((l, v)) && v == fee && l.wf() && l.model() == (LedgerModel {
                    tx: t,
                    ..self.model()
                }) && model_entries(l.updates.proposals) == model_entries(self.updates.proposals) && l.total_value()
                    + fee.0 == self.total_value())
            }),
    {
        let transaction_id = signed_tx.transaction.hash();
        let fee = match dyn_params.fees.calculate(signed_tx.transaction.inputs.len(), signed_tx.transaction.outputs.len()) {
            Some(f) => f,
            None => {
                return Err(Error::FeeCalculationError { error: ValueError::Overflow });
            },
        };
        let l = internal_apply_transaction(
            self,
            &transaction_id,
            &signed_tx.transaction.inputs,
            &signed_tx.transaction.outputs,
            &signed_tx.witnesses,
            fee,
        )?;
        Ok((l, fee))
    }

    fn apply_certificate_content(self, content: &CertificateContent) -> (r: Result<Ledger, Error>)
        requires
            self.wf(),
        ensures
            cert_effect(self.accounts@, self.delegation@, *content) matches Err(e) ==> r == Err::<Ledger, Error>(e),
            cert_effect(self.accounts@, self.delegation@, *content) matches Ok((a, p)) ==> (r matches Ok(l) && l.wf()
                && l.model() == (LedgerModel { tx: TxModel { accounts: a, ..self.tx_model() }, delegation: p, ..self.model() })
                && model_entries(l.updates.proposals) == model_entries(self.updates.proposals) && l.total_value()
                == self.total_value()),
    {
        let mut l = self;
        match content {
            CertificateContent::StakeDelegation(reg) => {
                if !l.delegation.stake_pool_exists(&reg.pool_id) {
                    return Err(
                        Error::Delegation { source: DelegationError::StakeDelegationPoolKeyIsInvalid(reg.pool_id) },
                    );
                }
                let Ledger { utxos, oldutxos, accounts, settings, updates, multisig, delegation, static_params, date, chain_length } = l;
                let accounts = match accounts.set_delegation(&reg.stake_key_id, Some(reg.pool_id)) {
                    Ok(a) => a,
                    Err(e) => {
                        return Err(Error::Account { source: e });
                    },
                };
                Ok(Ledger { utxos, oldutxos, accounts, settings, updates, multisig, delegation, static_params, date, chain_length })
            },
            CertificateContent::StakePoolRegistration(info) => {
                let Ledger { utxos, oldutxos, accounts, settings, updates, multisig, delegation, static_params, date, chain_length } = l;
                let delegation = match delegation.register_stake_pool(crate::keymap::Dup::dup(info)) {
                    Ok(d) => d,
                    Err(e) => {
                        return Err(Error::Delegation { source: e });
                    },
                };
                Ok(Ledger { utxos, oldutxos, accounts, settings, updates, multisig, delegation, static_params, date, chain_length })
            },
            CertificateContent::StakePoolRetirement(reg) => {
                let Ledger { utxos, oldutxos, accounts, settings, updates, multisig, delegation, static_params, date, chain_length } = l;
                let delegation = match delegation.deregister_stake_pool(&reg.pool_id) {
                    Ok(d) => d,
                    Err(e) => {
                        return Err(Error::Delegation { source: e });
                    },
                };
                Ok(Ledger { utxos, oldutxos, accounts, settings, updates, multisig, delegation, static_params, date, chain_length })
            },
        }
    }

    /// Applies a certificate-carrying transaction: the certificate's own
    /// signatures, the transaction, then the certificate; all or nothing.
    pub fn apply_certificate(self, auth_cert: &AuthenticatedCertificateTransaction, dyn_params: &LedgerParameters) -> (r: Result<
        (Ledger, Value),
        Error,
    >)
        requires
            self.wf(),
        ensures
            cert_outcome(self.model(), *auth_cert, dyn_params.fees) matches Err(e) ==> r == Err::<(Ledger, Value), Error>(e),
            cert_outcome(self.model(), *auth_cert, dyn_params.fees) matches Ok(m) ==> (r matches Ok((l, v)) && l.wf()
                && l.model() == m && model_entries(l.updates.proposals) == model_entries(self.updates.proposals)
                && v.0 == fee_for(
                dyn_params.fees,
                auth_cert.transaction.inputs@.len() as int,
                auth_cert.transaction.outputs@.len() as int,
            ) && l.total_value() + v.0 == self.total_value()),
    {
        if !auth_cert.certificate.verify(&self.delegation) {
            return Err(Error::CertificateInvalidSignature);
        }
        let transaction_id = auth_cert.hash();
        let fee = match dyn_params.fees.calculate(auth_cert.transaction.inputs.len(), auth_cert.transaction.outputs.len()) {
            Some(f) => f,
            None => {
                return Err(Error::FeeCalculationError { error: ValueError::Overflow });
            },
        };
        let l = internal_apply_transaction(
            self,
            &transaction_id,
            &auth_cert.transaction.inputs,
            &auth_cert.transaction.outputs,
            &auth_cert.witnesses,
            fee,
        )?;
        let l = l.apply_certificate_content(&auth_cert.certificate.content)?;
        Ok((l, fee))
    }

    /// Folds the changes of a proposal into the settings.
    pub fn apply_update(self, update: &update::UpdateProposal) -> (r: Result<Ledger, Error>)
        requires
            self.wf(),
        ensures
            setting::apply_params(self.settings@, update.changes@) matches Err(e) ==> r == Err::<Ledger, Error>(
                Error::Config { source: e },
            ),
            setting::apply_params(self.settings@, update.changes@) matches Ok(s) ==> (r matches Ok(l) && l.wf()
                && l.model() == (LedgerModel { settings: s, ..self.model() }) && l.total_value() == self.total_value()),
    {
        let mut l = self;
        l.settings = match l.settings.apply(&update.changes) {
            Ok(s) => s,
            Err(e) => {
                return Err(Error::Config { source: e });
            },
        };
        Ok(l)
    }

    /// Records an update proposal made at `cur_date`.
    pub fn apply_update_proposal(
        self,
        proposal_id: UpdateProposalId,
        proposal: &SignedUpdateProposal,
        cur_date: BlockDate,
    ) -> (r: Result<Ledger, Error>)
        requires
            self.wf(),
        ensures
            proposal_result(self.updates@, proposal_id, *proposal, self.settings.bft_leaders@, cur_date) matches Err(e)
                ==> r == Err::<Ledger, Error>(Error::Update { source: e }),
            proposal_result(self.updates@, proposal_id, *proposal, self.settings.bft_leaders@, cur_date) matches Ok(u)
                ==> (r matches Ok(l) && l.wf() && l.model() == (LedgerModel { updates: u, ..self.model() })
                && l.total_value() == self.total_value()),
    {
        let Ledger { utxos, oldutxos, accounts, settings, updates, multisig, delegation, static_params, date, chain_length } = self;
        let updates = match updates.apply_proposal(proposal_id, proposal, &settings, cur_date) {
            Ok(u) => u,
            Err(e) => {
                return Err(Error::Update { source: e });
            },
        };
        Ok(Ledger { utxos, oldutxos, accounts, settings, updates, multisig, delegation, static_params, date, chain_length })
    }

    fn apply_update_vote_at(self, vote: &SignedUpdateVote, cur_date: BlockDate) -> (r: Result<Ledger, Error>)
        requires
            self.wf(),
        ensures
            vote_result(self.updates@, *vote, self.settings@, cur_date) matches Err(e) ==> r == Err::<Ledger, Error>(
                Error::Update { source: e },
            ),
            vote_result(self.updates@, *vote, self.settings@, cur_date) matches Ok(u) ==> (r matches Ok(l) && l.wf()
                && l.model() == (LedgerModel { updates: u, ..self.model() }) && l.total_value() == self.total_value()),
    {
        let Ledger { utxos, oldutxos, accounts, settings, updates, multisig, delegation, static_params, date, chain_length } = self;
        let updates = match updates.apply_vote(vote, &settings, cur_date) {
            Ok(u) => u,
            Err(e) => {
                return Err(Error::Update { source: e });
            },
        };
        Ok(Ledger { utxos, oldutxos, accounts, settings, updates, multisig, delegation, static_params, date, chain_length })
    }

    /// Records a vote, judging expiry at the ledger's date.
    pub fn apply_update_vote(self, vote: &SignedUpdateVote) -> (r: Result<Ledger, Error>)
        requires
            self.wf(),
        ensures
            vote_result(self.updates@, *vote, self.settings@, self.date) matches Err(e) ==> r == Err::<Ledger, Error>(
                Error::Update { source: e },
            ),
            vote_result(self.updates@, *vote, self.settings@, self.date) matches Ok(u) ==> (r matches Ok(l) && l.wf()
                && l.model() == (LedgerModel { updates: u, ..self.model() }) && l.total_value() == self.total_value()),
    {
        let d = self.date;
        self.apply_update_vote_at(vote, d)
    }

    fn apply_fragment_owned(self, ledger_params: &LedgerParameters, content: &Message, metadata: &HeaderContentEvalContext) -> (r: Result<
        Ledger,
        Error,
    >)
        requires
            self.wf(),
        ensures
            fragment_outcome(self.model(), ledger_params.fees, *content, metadata.block_date) matches Err(e) ==> r
                == Err::<Ledger, Error>(e),
            fragment_outcome(self.model(), ledger_params.fees, *content, metadata.block_date) matches Ok(m) ==> (r matches Ok(
                l,
            ) && l.wf() && l.model() == m && l.total_value() + fragment_fee(*content, ledger_params.fees)
                == self.total_value()),
    {
        proof {
            reveal(fragment_outcome);
        }
        match content {
            Message::Initial(_) => Err(Error::Block0 { source: Block0Error::OnlyMessageReceived }),
            Message::OldUtxoDeclaration(_) => Err(Error::Block0 { source: Block0Error::OnlyMessageReceived }),
            Message::Transaction(authenticated_tx) => {
                let (l, _fee) = self.apply_transaction(authenticated_tx, ledger_params)?;
                Ok(l)
            },
            Message::UpdateProposal(update_proposal) => {
                let id = update_proposal.id();
                self.apply_update_proposal(id, update_proposal, metadata.block_date)
            },
            Message::UpdateVote(vote) => self.apply_update_vote_at(vote, metadata.block_date),
            Message::Certificate(authenticated_cert_tx) => {
                let (l, _fee) = self.apply_certificate(authenticated_cert_tx, ledger_params)?;
                Ok(l)
            },
        }
    }

    /// Applies a block's fragments to a copy of the ledger. The fees in force
    /// are those of the settings after the proposals adopted at this block's
    /// boundary.
    pub fn apply_block(&self, contents: &Vec<Message>, metadata: &HeaderContentEvalContext) -> (r: Result<Ledger, Error>)
        requires
            self.wf(),
        ensures
            block_applied(*self, contents@, *metadata, r),
    {
        if self.chain_length.0 == u32::MAX {
            return Err(Error::ChainLengthExhausted { chain_length: self.chain_length });
        }
        let expected = self.chain_length.next();
        if metadata.chain_length != expected {
            return Err(Error::WrongChainLength { actual: metadata.chain_length, expected });
        }
        if !self.date.is_before(&metadata.block_date) {
            return Err(Error::NonMonotonicDate { block_date: metadata.block_date, chain_date: self.date });
        }
        let Ledger { utxos, oldutxos, accounts, settings, updates, multisig, delegation, static_params, date, chain_length } = self.dup();
        let (updates, settings) = match updates.process_proposals(settings, date, metadata.block_date) {
            Ok(x) => x,
            Err(e) => {
                return Err(Error::Update { source: e });
            },
        };
        let params = LedgerParameters { fees: settings.linear_fees };
        let mut l = Ledger {
            utxos,
            oldutxos,
            accounts,
            settings,
            updates,
            multisig,
            delegation,
            static_params,
            date,
            chain_length: expected,
        };
        proof {
            lemma_view_entries(l.updates);
        }
        let ghost m0 = l.model();
        proof {
            assert(block_outcome(*self, contents@, *metadata) == match fragments_upto(
                m0,
                params.fees,
                contents@,
                metadata.block_date,
                contents@.len() as int,
            ) {
                Err(e) => Err(e),
                Ok(m) => Ok(finish_block(m, *metadata)),
            });
        }
        let mut i: usize = 0;
        while i < contents.len()
            invariant
                0 <= i <= contents@.len(),
                l.wf(),
                params.fees == m0.settings.linear_fees,
                l.settings@ == m0.settings,
                l.chain_length == m0.chain_length,
                l.static_params == m0.static_params,
                m0.chain_length.0 == self.chain_length.0 + 1,
                m0.static_params == self.static_params,
                date_lt(self.date, metadata.block_date),
                block_outcome(*self, contents@, *metadata) == match fragments_upto(
                    m0,
                    params.fees,
                    contents@,
                    metadata.block_date,
                    contents@.len() as int,
                ) {
                    Err(e) => Err(e),
                    Ok(m) => Ok(finish_block(m, *metadata)),
                },
                fragments_upto(m0, params.fees, contents@, metadata.block_date, i as int) == Ok::<LedgerModel, Error>(l.model()),
                l.total_value() + fragments_fee(contents@, params.fees, i as int) == self.total_value(),
            decreases contents@.len() - i,
        {
            let ghost before = l.model();
            l = match l.apply_fragment_owned(&params, &contents[i], metadata) {
                Ok(x) => x,
                Err(e) => {
                    proof {
                        lemma_fragments_err(m0, params.fees, contents@, metadata.block_date, i + 1, contents@.len() as int);
                    }
                    return Err(e);
                },
            };
            proof {
                lemma_fragment_keeps_frame(before, params.fees, contents@[i as int], metadata.block_date);
            }
            i += 1;
        }
        l.date = metadata.block_date;
        match metadata.nonce {
            Some(n) => {
                let mut v: Vec<u8> = Vec::new();
                push_bytes(&mut v, &l.settings.consensus_nonce);
                push_bytes(&mut v, &n);
                let h = blake2b_256(&v);
                proof {
                    lemma_digest_of(h, l.settings.consensus_nonce@ + n@);
                }
                l.settings.consensus_nonce = h;
            },
            None => {},
        }
        Ok(l)
    }

    /// The parameters fixed at genesis.
    pub fn get_static_parameters(&self) -> (r: &LedgerStaticParameters)
        ensures
            *r == self.static_params,
    {
        &self.static_params
    }

    pub fn accounts(&self) -> (r: &account::Ledger)
        ensures
            *r == self.accounts,
    {
        &self.accounts
    }

    /// The parameters fragments are validated with under the current settings.
    pub fn get_ledger_parameters(&self) -> (r: LedgerParameters)
        ensures
            r.fees == self.settings.linear_fees,
    {
        LedgerParameters { fees: self.settings.linear_fees }
    }

    pub fn consensus_version(&self) -> (r: ConsensusVersion)
        ensures
            r == self.settings.consensus_version,
    {
        self.settings.consensus_version
    }

    /// The unspent outputs, with their keys.
    pub fn utxos(&self) -> (r: Vec<(IndexedKey, Output<Address>)>)
        ensures
            r@ == self.utxos.outputs.seq(),
    {
        self.utxos.iter()
    }

    pub fn chain_length(&self) -> (r: ChainLength)
        ensures
            r == self.chain_length,
    {
        self.chain_length
    }

    pub fn settings(&mut self) -> (r: &mut Settings)
        ensures
            *r == old(self).settings,
            *final(self) == (Ledger { settings: *final(r), ..*old(self) }),
    {
        &mut self.settings
    }

    pub fn delegation(&mut self) -> (r: &mut DelegationState)
        ensures
            *r == old(self).delegation,
            *final(self) == (Ledger { delegation: *final(r), ..*old(self) }),
    {
        &mut self.delegation
    }

    pub fn date(&self) -> (r: BlockDate)
        ensures
            r == self.date,
    {
        self.date
    }

    /// Applies one fragment of a normal block to a copy of the ledger.
    pub fn apply_fragment(&self, ledger_params: &LedgerParameters, content: &Message, metadata: &HeaderContentEvalContext) -> (r: Result<
        Ledger,
        Error,
    >)
        requires
            self.wf(),
        ensures
            fragment_outcome(self.model(), ledger_params.fees, *content, metadata.block_date) matches Err(e) ==> r
                == Err::<Ledger, Error>(e),
            fragment_outcome(self.model(), ledger_params.fees, *content, metadata.block_date) matches Ok(m) ==> (r matches Ok(
                l,
            ) && l.wf() && l.model() == m && l.total_value() + fragment_fee(*content, ledger_params.fees)
                == self.total_value()),
    {
        self.dup().apply_fragment_owned(ledger_params, content, metadata)
    }
}

/// The fees paid by the first `n` blocks of a chain: block `i`, with
/// fragments `blocks[i]`, pays under the fees in force in the ledger it
/// produced.
pub open spec fn chain_fees(ls: Seq<Ledger>, blocks: Seq<Seq<Message>>, n: int) -> int
    decreases n,
{
    if n <= 0 {
        0
    } else {
        chain_fees(ls, blocks, n - 1) + fragments_fee(
            blocks[n - 1],
            ls[n].settings@.linear_fees,
            blocks[n - 1].len() as int,
        )
    }
}

/// Along a chain of applied blocks, value is neither created nor lost: the
/// value held at the end, plus every fee paid on the way, is the value held
/// at the start.
pub proof fn lemma_value_conserved_along_chain(
    ls: Seq<Ledger>,
    blocks: Seq<Seq<Message>>,
    headers: Seq<HeaderContentEvalContext>,
)
    requires
        ls.len() == blocks.len() + 1,
        headers.len() == blocks.len(),
        forall|i: int| 0 <= i < blocks.len() ==> block_applied(#[trigger] ls[i], blocks[i], headers[i], Ok(ls[i + 1])),
    ensures
        ls.last().total_value() + chain_fees(ls, blocks, blocks.len() as int) == ls[0].total_value(),
    decreases blocks.len(),
{
    if blocks.len() > 0 {
        let n = blocks.len() - 1;
        lemma_value_conserved_along_chain(ls.drop_last(), blocks.drop_last(), headers.drop_last());
        assert forall|i: int| 0 <= i <= n implies chain_fees(ls.drop_last(), blocks.drop_last(), i) == chain_fees(ls, blocks, i) by {
            lemma_chain_fees_prefix(ls, blocks, i);
        }
        assert(block_applied(ls[n], blocks[n], headers[n], Ok(ls[n + 1])));
        let pre = ls.drop_last();
        assert(pre.last() == ls[n]);
        assert(pre[0] == ls[0]);
        assert(blocks.drop_last().len() == n);
        let o = block_outcome(ls[n], blocks[n], headers[n]);
        assert(o is Ok);
        assert(ls[n + 1].model() == o->Ok_0);
        assert(ls.last() == ls[n + 1]);
        assert(chain_fees(ls, blocks, n + 1) == chain_fees(ls, blocks, n) + fragments_fee(
            blocks[n],
            ls[n + 1].settings@.linear_fees,
            blocks[n].len() as int,
        ));
    }
}

proof fn lemma_chain_fees_prefix(ls: Seq<Ledger>, blocks: Seq<Seq<Message>>, i: int)
    requires
        ls.len() == blocks.len() + 1,
        0 <= i < blocks.len(),
    ensures
        chain_fees(ls.drop_last(), blocks.drop_last(), i) == chain_fees(ls, blocks, i),
    decreases i,
{
    if i > 0 {
        lemma_chain_fees_prefix(ls, blocks, i - 1);
    }
}

/// An accepted transaction is balanced: its inputs sum to its outputs plus
/// its fee.
pub proof fn lemma_accepted_transaction_balanced(
    m: TxModel,
    static_params: LedgerStaticParameters,
    txid: TransactionId,
    inputs: Seq<Input>,
    outputs: Seq<Output<Address>>,
    witnesses: Seq<Witness>,
    fee: Value,
)
    requires
        apply_tx(m, static_params, txid, inputs, outputs, witnesses, fee) is Ok,
    ensures
        sum_values(input_values(inputs)) == sum_values(output_values(outputs)) + fee.0,
{
}

/// Spending from an account advances its counter by exactly one, and the
/// witness signed the counter from before the spend.
pub proof fn lemma_account_input_counter(
    m: TxModel,
    block0: Digest,
    txid: TransactionId,
    id: AccountIdentifier,
    v: Value,
    sig: crate::crypto::Signature,
)
    requires
        input_step(m, block0, txid, Input::Account(id, v), Witness::Account(sig)) is Ok,
    ensures
        ({
            let m2 = input_step(m, block0, txid, Input::Account(id, v), Witness::Account(sig))->Ok_0;
            &&& m.accounts[id].counter < u32::MAX
            &&& m2.accounts[id].counter == m.accounts[id].counter + 1
            &&& ed25519_accepts(witness_account_data(block0, txid, m.accounts[id].counter), id@, sig@)
        }),
{
}

/// A witness of the wrong kind for its input is rejected with the error that
/// names the kind expected.
pub proof fn lemma_witness_mismatch(m: TxModel, block0: Digest, txid: TransactionId, input: Input, witness: Witness)
    ensures
        input is Utxo && (witness is Account || witness is Multisig) ==> input_step(m, block0, txid, input, witness)
            == Err::<TxModel, Error>(Error::ExpectingUtxoWitness),
        input is Account && (witness is Utxo || witness is OldUtxo) ==> input_step(m, block0, txid, input, witness)
            == Err::<TxModel, Error>(Error::ExpectingAccountWitness),
{
}

proof fn lemma_materialized_outputs_nonzero(st: OutputsModel, d: Discrimination, outs: Seq<Output<Address>>, n: int)
    requires
        outputs_upto(st, d, outs, n) is Ok,
    ensures
        forall|j: int| 0 <= j < n ==> #[trigger] outs[j].value.0 != 0,
    decreases n,
{
    if n > 0 {
        lemma_materialized_outputs_nonzero(st, d, outs, n - 1);
    }
}

/// A transaction with a zero-valued output is never accepted, whatever else
/// it holds.
pub proof fn lemma_zero_output_rejected(
    m: TxModel,
    static_params: LedgerStaticParameters,
    txid: TransactionId,
    inputs: Seq<Input>,
    outputs: Seq<Output<Address>>,
    witnesses: Seq<Witness>,
    fee: Value,
    i: int,
)
    requires
        0 <= i < outputs.len(),
        outputs[i].value.0 == 0,
    ensures
        apply_tx(m, static_params, txid, inputs, outputs, witnesses, fee) is Err,
        materialize(m, static_params.discrimination, txid, outputs) is Err,
{
    let st = OutputsModel { accounts: m.accounts, multisig: m.multisig, new_utxos: Seq::empty() };
    if outputs_upto(st, static_params.discrimination, outputs, outputs.len() as int) is Ok {
        lemma_materialized_outputs_nonzero(st, static_params.discrimination, outputs, outputs.len() as int);
    }
    if apply_tx(m, static_params, txid, inputs, outputs, witnesses, fee) is Ok {
        let m2 = inputs_upto(m, static_params.block0_initial_hash, txid, inputs, witnesses, inputs.len() as int)->Ok_0;
        let st2 = OutputsModel { accounts: m2.accounts, multisig: m2.multisig, new_utxos: Seq::empty() };
        lemma_materialized_outputs_nonzero(st2, static_params.discrimination, outputs, outputs.len() as int);
    }
}

/// Applying the same block to the same snapshot twice gives the same
/// outcome: the same error, or snapshots with equal contents.
pub proof fn lemma_apply_block_deterministic(
    l: Ledger,
    frags: Seq<Message>,
    meta: HeaderContentEvalContext,
    r1: Result<Ledger, Error>,
    r2: Result<Ledger, Error>,
)
    requires
        block_applied(l, frags, meta, r1),
        block_applied(l, frags, meta, r2),
    ensures
        r1 is Ok <==> r2 is Ok,
        r1 is Err ==> r1 == r2,
        r1 matches Ok(a) ==> (r2 matches Ok(b) && a.model() == b.model() && a.total_value() == b.total_value()),
{
}

/// What a block does to a snapshot depends on the snapshot's contents alone.
pub proof fn lemma_block_outcome_by_contents(a: Ledger, b: Ledger, frags: Seq<Message>, meta: HeaderContentEvalContext)
    requires
        a.wf(),
        b.wf(),
        a.model() == b.model(),
    ensures
        block_outcome(a, frags, meta) == block_outcome(b, frags, meta),
{
    lemma_view_entries(a.updates);
    lemma_view_entries(b.updates);
    lemma_sorted_entries_unique(model_entries(a.updates.proposals), model_entries(b.updates.proposals));
}

/// Applying the same two blocks in turn to the same snapshot gives the same
/// outcome every time: the same error, or snapshots with equal contents.
pub proof fn lemma_two_blocks_deterministic(
    l: Ledger,
    frags1: Seq<Message>,
    meta1: HeaderContentEvalContext,
    frags2: Seq<Message>,
    meta2: HeaderContentEvalContext,
    x1: Ledger,
    y1: Ledger,
    rx: Result<Ledger, Error>,
    ry: Result<Ledger, Error>,
)
    requires
        block_applied(l, frags1, meta1, Ok(x1)),
        block_applied(l, frags1, meta1, Ok(y1)),
        block_applied(x1, frags2, meta2, rx),
        block_applied(y1, frags2, meta2, ry),
    ensures
        rx is Ok <==> ry is Ok,
        rx is Err ==> rx == ry,
        rx matches Ok(a) ==> (ry matches Ok(b) && a.model() == b.model() && a.total_value() == b.total_value()),
{
    assert(x1.model() == y1.model());
    lemma_block_outcome_by_contents(x1, y1, frags2, meta2);
}

} // verus!
