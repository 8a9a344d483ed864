//! Block headers and contents, and a builder that assembles and seals them.
use vstd::prelude::*;
use crate::block::{BlockDate, ChainLength};
use crate::config::be_u16;
use crate::crypto::{
    be_u32, blake2b_256, digest_of, ed25519_sign, ed25519_signature_of, lemma_digest_of, lemma_zero_digest, push_bytes,
    push_u32, zero_digest, Digest, PublicKey, Signature,
};
use crate::message::{contents_bytes, push_u16, Message};
use crate::transaction::AuthenticatedTransaction;

verus! {

pub type BlockId = Digest;

#[derive(Clone, Copy, Debug, PartialEq, Eq, Structural)]
pub enum BlockVersion {
    Genesis,
    Ed25519Signed,
    KesVrfproof,
}

pub open spec fn version_number(v: BlockVersion) -> u16 {
    match v {
        BlockVersion::Genesis => 0,
        BlockVersion::Ed25519Signed => 1,
        BlockVersion::KesVrfproof => 2,
    }
}

/// The header fields every block has.
#[derive(Clone, Copy, Debug, PartialEq, Eq)]
pub struct Common {
    pub any_block_version: u16,
    pub block_date: BlockDate,
    pub block_content_size: u32,
    pub block_content_hash: Digest,
    pub block_parent_hash: BlockId,
    pub chain_length: ChainLength,
}

/// The bytes of the common header: parent hash, date, chain length, content
/// size, content hash and version.
pub open spec fn common_bytes(c: Common) -> Seq<u8> {
    c.block_parent_hash@ + be_u32(c.block_date.epoch) + be_u32(c.block_date.slot_id) + be_u32(c.chain_length.0)
        + be_u32(c.block_content_size) + c.block_content_hash@ + be_u16(c.any_block_version)
}

#[derive(Clone, Copy, Debug, PartialEq, Eq)]
pub struct BftProof {
    pub leader_id: PublicKey,
    pub signature: Signature,
}

#[derive(Clone, Copy, Debug, PartialEq, Eq)]
pub enum Proof {
    NoProof,
    Bft(BftProof),
}

#[derive(Clone, Copy, Debug, PartialEq, Eq)]
pub struct Header {
    pub common: Common,
    pub proof: Proof,
}

#[derive(Clone, Debug, PartialEq, Eq)]
pub struct BlockContents(pub Vec<Message>);

#[derive(Clone, Debug, PartialEq, Eq)]
pub struct Block {
    pub header: Header,
    pub contents: BlockContents,
}

impl Common {
    pub fn serialize(&self) -> (r: Vec<u8>)
        ensures
            r@ == common_bytes(*self),
    {
        let mut out: Vec<u8> = Vec::new();
        push_bytes(&mut out, &self.block_parent_hash);
        push_u32(&mut out, self.block_date.epoch);
        push_u32(&mut out, self.block_date.slot_id);
        push_u32(&mut out, self.chain_length.0);
        push_u32(&mut out, self.block_content_size);
        push_bytes(&mut out, &self.block_content_hash);
        out.push((self.any_block_version / 0x100) as u8);
        out.push((self.any_block_version % 0x100) as u8);
        proof {
            assert(out@ =~= common_bytes(*self));
        }
        out
    }
}

impl BlockContents {
    pub fn new(fragments: Vec<Message>) -> (r: BlockContents)
        ensures
            r.0@ == fragments@,
    {
        BlockContents(fragments)
    }

    /// The digest and the size of the contents' bytes.
    pub fn compute_hash_size(&self) -> (r: (Digest, usize))
        ensures
            r.0 == digest_of(contents_bytes(self.0@)),
            r.1 == contents_bytes(self.0@).len(),
    {
        let mut out: Vec<u8> = Vec::new();
        let mut i: usize = 0;
        while i < self.0.len()
            invariant
                0 <= i <= self.0@.len(),
                out@ == contents_bytes(self.0@.subrange(0, i as int)),
            decreases self.0@.len() - i,
        {
            proof {
                assert(self.0@.subrange(0, i + 1).drop_last() == self.0@.subrange(0, i as int));
            }
            let bytes = self.0[i].serialize();
            push_u16(&mut out, bytes.len());
            push_bytes(&mut out, bytes.as_slice());
            proof {
                assert(out@ =~= contents_bytes(self.0@.subrange(0, i + 1)));
            }
            i += 1;
        }
        proof {
            assert(self.0@.subrange(0, self.0@.len() as int) == self.0@);
        }
        let h = blake2b_256(&out);
        proof {
            lemma_digest_of(h, contents_bytes(self.0@));
        }
        (h, out.len())
    }
}

pub struct BlockBuilder {
    pub common: Common,
    pub contents: BlockContents,
}

impl BlockBuilder {
    /// A builder for the empty genesis block.
    pub fn new() -> (r: BlockBuilder)
        ensures
            r.common == (Common {
                any_block_version: 0,
                block_date: BlockDate { epoch: 0, slot_id: 0 },
                block_content_size: 0,
                block_content_hash: zero_digest(),
                block_parent_hash: zero_digest(),
                chain_length: ChainLength(0),
            }),
            r.contents.0@.len() == 0,
    {
        let zero: Digest = [0u8; 32];
        proof {
            assert(forall|i: int| 0 <= i < 32 ==> zero[i] == 0u8);
            lemma_zero_digest(zero);
        }
        BlockBuilder {
            common: Common {
                any_block_version: 0,
                block_date: BlockDate::first(),
                block_content_size: 0,
                block_content_hash: zero,
                block_parent_hash: zero,
                chain_length: ChainLength(0),
            },
            contents: BlockContents::new(Vec::new()),
        }
    }

    /// Sets the block date.
    pub fn date(&mut self, block_date: BlockDate) -> (r: &mut Self)
        ensures
            *r == (BlockBuilder { common: Common { block_date, ..old(self).common }, ..*old(self) }),
            *final(self) == *final(r),
    {
        self.common.block_date = block_date;
        self
    }

    /// Sets the chain length.
    pub fn chain_length(&mut self, chain_length: ChainLength) -> (r: &mut Self)
        ensures
            *r == (BlockBuilder { common: Common { chain_length, ..old(self).common }, ..*old(self) }),
            *final(self) == *final(r),
    {
        self.common.chain_length = chain_length;
        self
    }

    /// Sets the parent hash.
    pub fn parent(&mut self, block_parent_hash: BlockId) -> (r: &mut Self)
        ensures
            *r == (BlockBuilder { common: Common { block_parent_hash, ..old(self).common }, ..*old(self) }),
            *final(self) == *final(r),
    {
        self.common.block_parent_hash = block_parent_hash;
        self
    }

    /// Adds a transaction fragment.
    pub fn transaction(&mut self, signed_transaction: AuthenticatedTransaction) -> (r: &mut Self)
        ensures
            r.common == old(self).common,
            r.contents.0@ == old(self).contents.0@.push(Message::Transaction(signed_transaction)),
            *final(self) == *final(r),
    {
        self.message(Message::Transaction(signed_transaction))
    }

    /// Adds a fragment.
    pub fn message(&mut self, message: Message) -> (r: &mut Self)
        ensures
            r.common == old(self).common,
            r.contents.0@ == old(self).contents.0@.push(message),
            *final(self) == *final(r),
    {
        self.contents.0.push(message);
        self
    }

    /// Adds fragments, in order.
    pub fn messages(&mut self, messages: Vec<Message>) -> (r: &mut Self)
        ensures
            r.common == old(self).common,
            r.contents.0@ == old(self).contents.0@ + messages@,
            *final(self) == *final(r),
    {
        let mut messages = messages;
        self.contents.0.append(&mut messages);
        self
    }

    fn make_block(self, proof: Proof) -> (r: Block)
        ensures
            r.header == (Header { common: self.common, proof }),
            r.contents == self.contents,
    {
        Block { header: Header { common: self.common, proof }, contents: self.contents }
    }

    fn finalize_common(&mut self, block_version: BlockVersion) -> (r: &mut Self)
        ensures
            r.contents == old(self).contents,
            r.common == (Common {
                block_content_hash: digest_of(contents_bytes(old(self).contents.0@)),
                block_content_size: (contents_bytes(old(self).contents.0@).len() % 0x1_0000_0000) as u32,
                any_block_version: version_number(block_version),
                ..old(self).common
            }),
            *final(self) == *final(r),
    {
        let (content_hash, content_size) = self.contents.compute_hash_size();
        self.common.block_content_hash = content_hash;
        self.common.block_content_size = ((content_size as u64) % 0x1_0000_0000) as u32;
        self.common.any_block_version = match block_version {
            BlockVersion::Genesis => 0,
            BlockVersion::Ed25519Signed => 1,
            BlockVersion::KesVrfproof => 2,
        };
        self
    }

    /// Seals the genesis block: no proof.
    pub fn make_genesis_block(self) -> (r: Block)
        requires
            self.common.block_parent_hash == zero_digest(),
            self.common.block_date == BlockDate::first_spec(),
            self.common.chain_length == ChainLength(0),
        ensures
            r.contents == self.contents,
            r.header == (Header {
                common: Common {
                    block_content_hash: digest_of(contents_bytes(self.contents.0@)),
                    block_content_size: (contents_bytes(self.contents.0@).len() % 0x1_0000_0000) as u32,
                    any_block_version: 0,
                    ..self.common
                },
                proof: Proof::NoProof,
            }),
    {
        let mut b = self;
        b.finalize_common(BlockVersion::Genesis);
        b.make_block(Proof::NoProof)
    }

    /// Seals a BFT block, signed with the leader's key pair (secret key, then
    /// public key).
    pub fn make_bft_block(self, bft_signing_key: &[u8; 64]) -> (r: Block)
        requires
            self.common.chain_length != ChainLength(0),
        ensures
            ({
                let common = Common {
                    block_content_hash: digest_of(contents_bytes(self.contents.0@)),
                    block_content_size: (contents_bytes(self.contents.0@).len() % 0x1_0000_0000) as u32,
                    any_block_version: 1,
                    ..self.common
                };
                &&& r.contents == self.contents
                &&& r.header.common == common
                &&& r.header.proof matches Proof::Bft(p) && p.leader_id@ == bft_signing_key@.subrange(32, 64)
                    && p.signature@ == ed25519_signature_of(common_bytes(common), bft_signing_key@)
            }),
    {
        let mut b = self;
        b.finalize_common(BlockVersion::Ed25519Signed);
        let data = b.common.serialize();
        let signature = ed25519_sign(&data, bft_signing_key);
        let mut leader_id: PublicKey = [0u8; 32];
        let mut i: usize = 0;
        while i < 32
            invariant
                0 <= i <= 32,
                forall|j: int| 0 <= j < i ==> leader_id[j] == bft_signing_key[j + 32],
            decreases 32 - i,
        {
            leader_id[i] = bft_signing_key[i + 32];
            i += 1;
        }
        proof {
            assert(leader_id@ =~= bft_signing_key@.subrange(32, 64));
        }
        b.make_block(Proof::Bft(BftProof { leader_id, signature }))
    }
}

} // verus!
