//! Block framing: dates, chain lengths, consensus versions and the time era.
use vstd::prelude::*;
use crate::crypto::Digest;

verus! {

/// A block's position in time: an epoch and a slot within it.
#[derive(Clone, Copy, Debug, PartialEq, Eq, Structural, PartialOrd, Ord)]
pub struct BlockDate {
    pub epoch: u32,
    pub slot_id: u32,
}

/// Dates are ordered by epoch, then by slot.
pub open spec fn date_lt(a: BlockDate, b: BlockDate) -> bool {
    a.epoch < b.epoch || (a.epoch == b.epoch && a.slot_id < b.slot_id)
}

impl BlockDate {
    pub open spec fn first_spec() -> BlockDate {
        BlockDate { epoch: 0, slot_id: 0 }
    }

    pub fn first() -> (r: BlockDate)
        ensures
            r == Self::first_spec(),
    {
        BlockDate { epoch: 0, slot_id: 0 }
    }

    /// Whether `self` comes strictly before `other`.
    pub fn is_before(&self, other: &BlockDate) -> (r: bool)
        ensures
            r == date_lt(*self, *other),
    {
        self.epoch < other.epoch || (self.epoch == other.epoch && self.slot_id < other.slot_id)
    }
}

#[derive(Clone, Copy, Debug, PartialEq, Eq, Structural, PartialOrd, Ord)]
pub struct ChainLength(pub u32);

impl ChainLength {
    /// The length one block later.
    pub fn next(&self) -> (r: ChainLength)
        requires
            self.0 < u32::MAX,
        ensures
            r.0 == self.0 + 1,
    {
        ChainLength(self.0 + 1)
    }
}

#[derive(Clone, Copy, Debug, PartialEq, Eq, Structural)]
pub enum ConsensusVersion {
    Bft,
    GenesisPraos,
}

/// A digest that identifies a block header.
pub type HeaderHash = Digest;

/// How slots map to wall-clock time: the start of slot 0 (seconds since the
/// Unix epoch), the slot duration (seconds), and the epoch framing.
#[derive(Clone, Copy, Debug, PartialEq, Eq, Structural)]
pub struct TimeEra {
    pub slot0_seconds: u64,
    pub slot_duration: u8,
    pub epoch_start: u32,
    pub slots_per_epoch: u32,
}

/// What a block header tells the ledger about the block being applied.
#[derive(Clone, Copy, Debug, PartialEq, Eq)]
pub struct HeaderContentEvalContext {
    pub block_date: BlockDate,
    pub chain_length: ChainLength,
    /// The contribution to the consensus nonce, when the header carries one.
    pub nonce: Option<Digest>,
}

} // verus!
