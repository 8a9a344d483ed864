//! Fragments: the units of content a block carries.
use vstd::prelude::*;
use crate::address::OldAddress;
use crate::certificate::{content_bytes, Certificate};
use crate::config::{be_u16, config_params_bytes, ConfigParams};
use crate::crypto::{be_u64, blake2b_256, blake2b_of, digest_of, lemma_digest_of, push_bytes, push_u64, Signature};
use crate::transaction::{transaction_bytes, Transaction, TransactionId, Witness, AuthenticatedTransaction};
use crate::update::{signed_proposal_bytes, vote_bytes, SignedUpdateProposal, SignedUpdateVote};
use crate::value::Value;

verus! {

/// Legacy outputs declared at genesis.
#[derive(Clone, Debug, PartialEq, Eq)]
pub struct UtxoDeclaration {
    pub addrs: Vec<(OldAddress, Value)>,
}

pub open spec fn declaration_body(s: Seq<(OldAddress, Value)>) -> Seq<u8>
    decreases s.len(),
{
    if s.len() == 0 {
        Seq::empty()
    } else {
        declaration_body(s.drop_last()) + s.last().0.0@ + be_u64(s.last().1.0)
    }
}

impl UtxoDeclaration {
    /// The declaration's identifier: the digest of each address and value.
    pub fn hash(&self) -> (r: TransactionId)
        ensures
            r@ == blake2b_of(declaration_body(self.addrs@)),
            r == digest_of(declaration_body(self.addrs@)),
    {
        let mut out: Vec<u8> = Vec::new();
        let mut i: usize = 0;
        while i < self.addrs.len()
            invariant
                0 <= i <= self.addrs@.len(),
                out@ == declaration_body(self.addrs@.subrange(0, i as int)),
            decreases self.addrs@.len() - i,
        {
            proof {
                assert(self.addrs@.subrange(0, i + 1).drop_last() == self.addrs@.subrange(0, i as int));
            }
            push_bytes(&mut out, &self.addrs[i].0.0);
            push_u64(&mut out, self.addrs[i].1.0);
            proof {
                assert(out@ =~= declaration_body(self.addrs@.subrange(0, i + 1)));
            }
            i += 1;
        }
        proof {
            assert(self.addrs@.subrange(0, self.addrs@.len() as int) == self.addrs@);
        }
        let r = blake2b_256(&out);
        proof {
            lemma_digest_of(r, declaration_body(self.addrs@));
        }
        r
    }
}

/// A transaction that carries a certificate.
#[derive(Clone, Debug, PartialEq, Eq)]
pub struct AuthenticatedCertificateTransaction {
    pub transaction: Transaction,
    pub certificate: Certificate,
    pub witnesses: Vec<Witness>,
}

/// The bytes a certificate-carrying transaction is identified by.
pub open spec fn certificate_transaction_bytes(tx: Transaction, c: Certificate) -> Seq<u8> {
    transaction_bytes(tx) + content_bytes(c.content)
}

impl AuthenticatedCertificateTransaction {
    pub fn hash(&self) -> (r: TransactionId)
        ensures
            r@ == blake2b_of(certificate_transaction_bytes(self.transaction, self.certificate)),
            r == digest_of(certificate_transaction_bytes(self.transaction, self.certificate)),
    {
        let mut out: Vec<u8> = Vec::new();
        self.transaction.serialize_into(&mut out);
        self.certificate.content.serialize_into(&mut out);
        proof {
            assert(out@ =~= certificate_transaction_bytes(self.transaction, self.certificate));
        }
        let r = blake2b_256(&out);
        proof {
            lemma_digest_of(r, certificate_transaction_bytes(self.transaction, self.certificate));
        }
        r
    }
}

#[derive(Clone, Debug, PartialEq, Eq)]
pub enum Message {
    Initial(ConfigParams),
    OldUtxoDeclaration(UtxoDeclaration),
    Transaction(AuthenticatedTransaction),
    Certificate(AuthenticatedCertificateTransaction),
    UpdateProposal(SignedUpdateProposal),
    UpdateVote(SignedUpdateVote),
}

pub type Fragment = Message;

pub open spec fn u16_bytes(n: nat) -> Seq<u8> {
    be_u16((n % 0x1_0000) as u16)
}

pub open spec fn participant_sigs_bytes(s: Seq<(u8, Signature)>) -> Seq<u8>
    decreases s.len(),
{
    if s.len() == 0 {
        Seq::empty()
    } else {
        participant_sigs_bytes(s.drop_last()) + seq![s.last().0] + s.last().1@
    }
}

/// The bytes of a witness: its tag, then its keys and signatures.
pub open spec fn witness_bytes(w: Witness) -> Seq<u8> {
    match w {
        Witness::OldUtxo(k, cc, sig) => seq![1u8] + k@ + cc@ + sig@,
        Witness::Utxo(sig) => seq![2u8] + sig@,
        Witness::Account(sig) => seq![3u8] + sig@,
        Witness::Multisig(sigs) => seq![4u8] + u16_bytes(sigs@.len()) + participant_sigs_bytes(sigs@),
    }
}

pub open spec fn witnesses_bytes(s: Seq<Witness>) -> Seq<u8>
    decreases s.len(),
{
    if s.len() == 0 {
        Seq::empty()
    } else {
        witnesses_bytes(s.drop_last()) + witness_bytes(s.last())
    }
}

pub open spec fn signatures_bytes(s: Seq<Signature>) -> Seq<u8>
    decreases s.len(),
{
    if s.len() == 0 {
        Seq::empty()
    } else {
        signatures_bytes(s.drop_last()) + s.last()@
    }
}

/// The bytes of a fragment: its tag, then its payload.
pub open spec fn fragment_bytes(m: Message) -> Seq<u8> {
    match m {
        Message::Initial(ps) => seq![0u8] + config_params_bytes(ps@),
        Message::OldUtxoDeclaration(d) => seq![1u8] + u16_bytes(d.addrs@.len()) + declaration_body(d.addrs@),
        Message::Transaction(at) => seq![2u8] + transaction_bytes(at.transaction) + witnesses_bytes(at.witnesses@),
        Message::Certificate(ac) => seq![3u8] + certificate_transaction_bytes(ac.transaction, ac.certificate)
            + u16_bytes(ac.certificate.signatures@.len()) + signatures_bytes(ac.certificate.signatures@)
            + witnesses_bytes(ac.witnesses@),
        Message::UpdateProposal(p) => seq![4u8] + signed_proposal_bytes(
            p.proposal.proposal.changes@,
            p.proposal.proposer_id,
            p.signature,
        ),
        Message::UpdateVote(v) => seq![5u8] + vote_bytes(v.vote) + v.signature@,
    }
}

/// The bytes of a block's contents: each fragment preceded by its size.
pub open spec fn contents_bytes(s: Seq<Message>) -> Seq<u8>
    decreases s.len(),
{
    if s.len() == 0 {
        Seq::empty()
    } else {
        contents_bytes(s.drop_last()) + u16_bytes(fragment_bytes(s.last()).len()) + fragment_bytes(s.last())
    }
}

pub fn push_u16(out: &mut Vec<u8>, n: usize)
    ensures
        final(out)@ == old(out)@ + u16_bytes(n as nat),
{
    let m = (n % 0x1_0000) as u16;
    out.push((m / 0x100) as u8);
    out.push((m % 0x100) as u8);
    proof {
        assert(final(out)@ =~= old(out)@ + u16_bytes(n as nat));
    }
}

pub fn push_witness(out: &mut Vec<u8>, w: &Witness)
    ensures
        final(out)@ == old(out)@ + witness_bytes(*w),
{
    match w {
        Witness::OldUtxo(k, cc, sig) => {
            out.push(1);
            push_bytes(out, k);
            push_bytes(out, cc);
            push_bytes(out, sig);
        },
        Witness::Utxo(sig) => {
            out.push(2);
            push_bytes(out, sig);
        },
        Witness::Account(sig) => {
            out.push(3);
            push_bytes(out, sig);
        },
        Witness::Multisig(sigs) => {
            out.push(4);
            push_u16(out, sigs.len());
            let ghost start = out@;
            let mut i: usize = 0;
            while i < sigs.len()
                invariant
                    0 <= i <= sigs@.len(),
                    out@ == start + participant_sigs_bytes(sigs@.subrange(0, i as int)),
                decreases sigs@.len() - i,
            {
                proof {
                    assert(sigs@.subrange(0, i + 1).drop_last() == sigs@.subrange(0, i as int));
                }
                out.push(sigs[i].0);
                push_bytes(out, &sigs[i].1);
                proof {
                    assert(out@ =~= start + participant_sigs_bytes(sigs@.subrange(0, i + 1)));
                }
                i += 1;
            }
            proof {
                assert(sigs@.subrange(0, sigs@.len() as int) == sigs@);
            }
        },
    }
    proof {
        assert(final(out)@ =~= old(out)@ + witness_bytes(*w));
    }
}

pub fn push_witnesses(out: &mut Vec<u8>, ws: &Vec<Witness>)
    ensures
        final(out)@ == old(out)@ + witnesses_bytes(ws@),
{
    let ghost start = out@;
    let mut i: usize = 0;
    while i < ws.len()
        invariant
            0 <= i <= ws@.len(),
            out@ == start + witnesses_bytes(ws@.subrange(0, i as int)),
        decreases ws@.len() - i,
    {
        proof {
            assert(ws@.subrange(0, i + 1).drop_last() == ws@.subrange(0, i as int));
        }
        push_witness(out, &ws[i]);
        proof {
            assert(out@ =~= start + witnesses_bytes(ws@.subrange(0, i + 1)));
        }
        i += 1;
    }
    proof {
        assert(ws@.subrange(0, ws@.len() as int) == ws@);
    }
}

pub fn push_signatures(out: &mut Vec<u8>, sigs: &Vec<Signature>)
    ensures
        final(out)@ == old(out)@ + signatures_bytes(sigs@),
{
    let ghost start = out@;
    let mut i: usize = 0;
    while i < sigs.len()
        invariant
            0 <= i <= sigs@.len(),
            out@ == start + signatures_bytes(sigs@.subrange(0, i as int)),
        decreases sigs@.len() - i,
    {
        proof {
            assert(sigs@.subrange(0, i + 1).drop_last() == sigs@.subrange(0, i as int));
        }
        push_bytes(out, &sigs[i]);
        proof {
            assert(out@ =~= start + signatures_bytes(sigs@.subrange(0, i + 1)));
        }
        i += 1;
    }
    proof {
        assert(sigs@.subrange(0, sigs@.len() as int) == sigs@);
    }
}

impl UtxoDeclaration {
    pub fn serialize_into(&self, out: &mut Vec<u8>)
        ensures
            final(out)@ == old(out)@ + declaration_body(self.addrs@),
    {
        let ghost start = out@;
        let mut i: usize = 0;
        while i < self.addrs.len()
            invariant
                0 <= i <= self.addrs@.len(),
                out@ == start + declaration_body(self.addrs@.subrange(0, i as int)),
            decreases self.addrs@.len() - i,
        {
            proof {
                assert(self.addrs@.subrange(0, i + 1).drop_last() == self.addrs@.subrange(0, i as int));
            }
            push_bytes(out, &self.addrs[i].0.0);
            push_u64(out, self.addrs[i].1.0);
            proof {
                assert(out@ =~= start + declaration_body(self.addrs@.subrange(0, i + 1)));
            }
            i += 1;
        }
        proof {
            assert(self.addrs@.subrange(0, self.addrs@.len() as int) == self.addrs@);
        }
    }
}

impl Message {
    /// The fragment's bytes.
    pub fn serialize(&self) -> (r: Vec<u8>)
        ensures
            r@ == fragment_bytes(*self),
    {
        let mut out: Vec<u8> = Vec::new();
        match self {
            Message::Initial(ps) => {
                out.push(0);
                ps.serialize_into(&mut out);
            },
            Message::OldUtxoDeclaration(d) => {
                out.push(1);
                push_u16(&mut out, d.addrs.len());
                d.serialize_into(&mut out);
            },
            Message::Transaction(at) => {
                out.push(2);
                at.transaction.serialize_into(&mut out);
                push_witnesses(&mut out, &at.witnesses);
            },
            Message::Certificate(ac) => {
                out.push(3);
                ac.transaction.serialize_into(&mut out);
                ac.certificate.content.serialize_into(&mut out);
                push_u16(&mut out, ac.certificate.signatures.len());
                push_signatures(&mut out, &ac.certificate.signatures);
                push_witnesses(&mut out, &ac.witnesses);
            },
            Message::UpdateProposal(p) => {
                out.push(4);
                p.proposal.proposal.changes.serialize_into(&mut out);
                push_bytes(&mut out, &p.proposal.proposer_id);
                push_bytes(&mut out, &p.signature);
            },
            Message::UpdateVote(v) => {
                out.push(5);
                push_bytes(&mut out, &v.vote.proposal_id);
                push_bytes(&mut out, &v.vote.voter_id);
                push_bytes(&mut out, &v.signature);
            },
        }
        proof {
            assert(out@ =~= fragment_bytes(*self));
        }
        out
    }
}

} // verus!
