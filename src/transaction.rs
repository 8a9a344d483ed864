//! Transactions: inputs, outputs, witnesses, and the bytes that identify
//! and authorise them.
use vstd::prelude::*;
use crate::address::{Address, Discrimination, Kind};
use crate::crypto::{blake2b_256, blake2b_of, digest_of, lemma_digest_of, push_bytes, push_u32, push_u64, be_u32, be_u64, Digest, PublicKey, Signature};
use crate::value::Value;

verus! {

pub type TransactionId = Digest;

/// An account identifier: a single account's public key or a multisig
/// identifier, depending on the witness that spends it.
pub type AccountIdentifier = [u8; 32];

/// The per-account replay counter bound into account signatures.
pub type SpendingCounter = u32;

/// A single output: an address and a strictly positive amount.
#[derive(Clone, Copy, Debug, PartialEq, Eq)]
pub struct Output<A> {
    pub address: A,
    pub value: Value,
}

impl<A: Copy> View for Output<A> {
    type V = Output<A>;

    open spec fn view(&self) -> Output<A> {
        *self
    }
}

impl<A: Copy> crate::keymap::Dup for Output<A> {
    fn dup(&self) -> (r: Self) {
        *self
    }
}

/// A reference to an unspent output, with the value it is expected to hold.
#[derive(Clone, Copy, Debug, PartialEq, Eq)]
pub struct UtxoPointer {
    pub transaction_id: TransactionId,
    pub output_index: u8,
    pub value: Value,
}

#[derive(Clone, Copy, Debug, PartialEq, Eq)]
pub enum Input {
    Utxo(UtxoPointer),
    Account(AccountIdentifier, Value),
}

impl Input {
    pub open spec fn spec_value(self) -> Value {
        match self {
            Input::Utxo(p) => p.value,
            Input::Account(_, v) => v,
        }
    }

    pub fn value(&self) -> (r: Value)
        ensures
            r == self.spec_value(),
    {
        match self {
            Input::Utxo(p) => p.value,
            Input::Account(_, v) => *v,
        }
    }
}

/// Authorisation for spending one input.
#[derive(Clone, Debug, PartialEq, Eq)]
pub enum Witness {
    /// A legacy extended public key (key then chain code) and a signature.
    OldUtxo(PublicKey, [u8; 32], Signature),
    Utxo(Signature),
    Account(Signature),
    /// Participant signatures, each with the participant's index in the
    /// multisig declaration.
    Multisig(Vec<(u8, Signature)>),
}

#[derive(Clone, Debug, PartialEq, Eq)]
pub struct Transaction {
    pub inputs: Vec<Input>,
    pub outputs: Vec<Output<Address>>,
}

#[derive(Clone, Debug, PartialEq, Eq)]
pub struct AuthenticatedTransaction {
    pub transaction: Transaction,
    pub witnesses: Vec<Witness>,
}

pub open spec fn discrimination_byte(d: Discrimination) -> u8 {
    match d {
        Discrimination::Production => 0u8,
        Discrimination::Test => 0x80u8,
    }
}

/// The bytes of an address: discrimination and kind tag in one byte, then keys.
pub open spec fn address_bytes(a: Address) -> Seq<u8> {
    let d = discrimination_byte(a.0);
    match a.1 {
        Kind::Single(k) => seq![(d + 1) as u8] + k@,
        Kind::Group(k, g) => seq![(d + 2) as u8] + k@ + g@,
        Kind::Account(k) => seq![(d + 3) as u8] + k@,
        Kind::Multisig(h) => seq![(d + 4) as u8] + h@,
    }
}

pub open spec fn output_bytes(o: Output<Address>) -> Seq<u8> {
    address_bytes(o.address) + be_u64(o.value.0)
}

/// The bytes of an input: the output index (or 0xff for an account), the
/// value, then the transaction id or account identifier.
pub open spec fn input_bytes(i: Input) -> Seq<u8> {
    match i {
        Input::Utxo(p) => seq![p.output_index] + be_u64(p.value.0) + p.transaction_id@,
        Input::Account(id, v) => seq![0xffu8] + be_u64(v.0) + id@,
    }
}

pub open spec fn inputs_bytes(s: Seq<Input>) -> Seq<u8>
    decreases s.len(),
{
    if s.len() == 0 {
        Seq::empty()
    } else {
        inputs_bytes(s.drop_last()) + input_bytes(s.last())
    }
}

pub open spec fn outputs_bytes(s: Seq<Output<Address>>) -> Seq<u8>
    decreases s.len(),
{
    if s.len() == 0 {
        Seq::empty()
    } else {
        outputs_bytes(s.drop_last()) + output_bytes(s.last())
    }
}

/// The bytes a transaction is identified by.
pub open spec fn transaction_bytes(tx: Transaction) -> Seq<u8> {
    be_u64(tx.inputs@.len() as u64) + be_u64(tx.outputs@.len() as u64) + inputs_bytes(tx.inputs@)
        + outputs_bytes(tx.outputs@)
}

/// Data signed by a UTxO witness.
pub open spec fn witness_utxo_data(block0: Digest, txid: TransactionId) -> Seq<u8> {
    seq![1u8] + block0@ + txid@
}

/// Data signed by an account witness.
pub open spec fn witness_account_data(block0: Digest, txid: TransactionId, counter: SpendingCounter) -> Seq<u8> {
    seq![2u8] + block0@ + txid@ + be_u32(counter)
}

/// Data signed by each participant of a multisig witness.
pub open spec fn witness_multisig_data(block0: Digest, txid: TransactionId, counter: SpendingCounter) -> Seq<u8> {
    seq![3u8] + block0@ + txid@ + be_u32(counter)
}

pub fn push_address(out: &mut Vec<u8>, a: &Address)
    ensures
        final(out)@ == old(out)@ + address_bytes(*a),
{
    let d: u8 = match a.0 {
        Discrimination::Production => 0,
        Discrimination::Test => 0x80,
    };
    match &a.1 {
        Kind::Single(k) => {
            out.push(d + 1);
            push_bytes(out, k);
        },
        Kind::Group(k, g) => {
            out.push(d + 2);
            push_bytes(out, k);
            push_bytes(out, g);
        },
        Kind::Account(k) => {
            out.push(d + 3);
            push_bytes(out, k);
        },
        Kind::Multisig(h) => {
            out.push(d + 4);
            push_bytes(out, h);
        },
    }
    proof {
        assert(final(out)@ =~= old(out)@ + address_bytes(*a));
    }
}

pub fn push_input(out: &mut Vec<u8>, i: &Input)
    ensures
        final(out)@ == old(out)@ + input_bytes(*i),
{
    match i {
        Input::Utxo(p) => {
            out.push(p.output_index);
            push_u64(out, p.value.0);
            push_bytes(out, &p.transaction_id);
        },
        Input::Account(id, v) => {
            out.push(0xff);
            push_u64(out, v.0);
            push_bytes(out, id);
        },
    }
    proof {
        assert(final(out)@ =~= old(out)@ + input_bytes(*i));
    }
}

impl Transaction {
    /// Appends the transaction's bytes to `out`.
    pub fn serialize_into(&self, out: &mut Vec<u8>)
        ensures
            final(out)@ == old(out)@ + transaction_bytes(*self),
    {
        push_u64(out, self.inputs.len() as u64);
        push_u64(out, self.outputs.len() as u64);
        let ghost start = out@;
        let mut i: usize = 0;
        while i < self.inputs.len()
            invariant
                0 <= i <= self.inputs@.len(),
                out@ == start + inputs_bytes(self.inputs@.subrange(0, i as int)),
            decreases self.inputs@.len() - i,
        {
            proof {
                assert(self.inputs@.subrange(0, i + 1).drop_last() == self.inputs@.subrange(0, i as int));
            }
            push_input(out, &self.inputs[i]);
            proof {
                assert(out@ =~= start + inputs_bytes(self.inputs@.subrange(0, i + 1)));
            }
            i += 1;
        }
        assert(self.inputs@.subrange(0, self.inputs@.len() as int) == self.inputs@);
        let ghost mid = out@;
        let mut j: usize = 0;
        while j < self.outputs.len()
            invariant
                0 <= j <= self.outputs@.len(),
                out@ == mid + outputs_bytes(self.outputs@.subrange(0, j as int)),
            decreases self.outputs@.len() - j,
        {
            proof {
                assert(self.outputs@.subrange(0, j + 1).drop_last() == self.outputs@.subrange(0, j as int));
            }
            push_address(out, &self.outputs[j].address);
            push_u64(out, self.outputs[j].value.0);
            proof {
                assert(out@ =~= mid + outputs_bytes(self.outputs@.subrange(0, j + 1)));
            }
            j += 1;
        }
        assert(self.outputs@.subrange(0, self.outputs@.len() as int) == self.outputs@);
        proof {
            assert(out@ =~= old(out)@ + transaction_bytes(*self));
        }
    }

    /// The transaction's identifier: the digest of its bytes.
    pub fn hash(&self) -> (r: TransactionId)
        ensures
            r@ == blake2b_of(transaction_bytes(*self)),
            r == digest_of(transaction_bytes(*self)),
    {
        let mut out: Vec<u8> = Vec::new();
        self.serialize_into(&mut out);
        proof {
            assert(out@ =~= transaction_bytes(*self));
        }
        let r = blake2b_256(&out);
        proof {
            lemma_digest_of(r, transaction_bytes(*self));
        }
        r
    }
}

pub fn witness_utxo_bytes(block0: &Digest, txid: &TransactionId) -> (r: Vec<u8>)
    ensures
        r@ == witness_utxo_data(*block0, *txid),
{
    let mut out: Vec<u8> = Vec::new();
    out.push(1);
    push_bytes(&mut out, block0);
    push_bytes(&mut out, txid);
    proof {
        assert(out@ =~= witness_utxo_data(*block0, *txid));
    }
    out
}

pub fn witness_account_bytes(block0: &Digest, txid: &TransactionId, counter: SpendingCounter) -> (r: Vec<u8>)
    ensures
        r@ == witness_account_data(*block0, *txid, counter),
{
    let mut out: Vec<u8> = Vec::new();
    out.push(2);
    push_bytes(&mut out, block0);
    push_bytes(&mut out, txid);
    push_u32(&mut out, counter);
    proof {
        assert(out@ =~= witness_account_data(*block0, *txid, counter));
    }
    out
}

pub fn witness_multisig_bytes(block0: &Digest, txid: &TransactionId, counter: SpendingCounter) -> (r: Vec<u8>)
    ensures
        r@ == witness_multisig_data(*block0, *txid, counter),
{
    let mut out: Vec<u8> = Vec::new();
    out.push(3);
    push_bytes(&mut out, block0);
    push_bytes(&mut out, txid);
    push_u32(&mut out, counter);
    proof {
        assert(out@ =~= witness_multisig_data(*block0, *txid, counter));
    }
    out
}

} // verus!
