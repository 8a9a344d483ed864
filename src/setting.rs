//! The active configuration of the ledger, and how parameters change it.
use vstd::prelude::*;
use crate::block::{ConsensusVersion, TimeEra};
use crate::config::{ConfigParam, ConfigParams, LinearFee, Milli};
use crate::crypto::{Digest, PublicKey};
use crate::keymap::KeyEq;

verus! {

#[derive(Clone, Copy, Debug, PartialEq, Eq, Structural)]
pub enum Error {
    /// The parameter is fixed at genesis.
    ReadOnlySetting,
    /// The Praos active slots coefficient must lie in (0, 1].
    ActiveSlotsCoeffInvalid,
}

#[derive(Clone, Debug, PartialEq, Eq)]
pub struct Settings {
    pub consensus_version: ConsensusVersion,
    pub consensus_nonce: Digest,
    pub slots_per_epoch: u32,
    pub slot_duration: u8,
    pub epoch_stability_depth: u32,
    pub active_slots_coeff: Milli,
    pub max_number_of_transactions_per_block: u32,
    pub bft_slots_ratio: Milli,
    pub bft_leaders: Vec<PublicKey>,
    pub linear_fees: LinearFee,
    pub proposal_expiration: u32,
    pub era: TimeEra,
}

/// Settings as plain values.
pub struct SettingsModel {
    pub consensus_version: ConsensusVersion,
    pub consensus_nonce: Digest,
    pub slots_per_epoch: u32,
    pub slot_duration: u8,
    pub epoch_stability_depth: u32,
    pub active_slots_coeff: Milli,
    pub max_number_of_transactions_per_block: u32,
    pub bft_slots_ratio: Milli,
    pub bft_leaders: Seq<PublicKey>,
    pub linear_fees: LinearFee,
    pub proposal_expiration: u32,
    pub era: TimeEra,
}

impl View for Settings {
    type V = SettingsModel;

    open spec fn view(&self) -> SettingsModel {
        SettingsModel {
            consensus_version: self.consensus_version,
            consensus_nonce: self.consensus_nonce,
            slots_per_epoch: self.slots_per_epoch,
            slot_duration: self.slot_duration,
            epoch_stability_depth: self.epoch_stability_depth,
            active_slots_coeff: self.active_slots_coeff,
            max_number_of_transactions_per_block: self.max_number_of_transactions_per_block,
            bft_slots_ratio: self.bft_slots_ratio,
            bft_leaders: self.bft_leaders@,
            linear_fees: self.linear_fees,
            proposal_expiration: self.proposal_expiration,
            era: self.era,
        }
    }
}

/// The settings a new ledger starts from, within its time era.
pub open spec fn default_settings(era: TimeEra) -> SettingsModel {
    SettingsModel {
        consensus_version: ConsensusVersion::Bft,
        consensus_nonce: crate::crypto::zero_digest(),
        slots_per_epoch: era.slots_per_epoch,
        slot_duration: era.slot_duration,
        epoch_stability_depth: 10,
        active_slots_coeff: Milli(220),
        max_number_of_transactions_per_block: 100,
        bft_slots_ratio: Milli(220),
        bft_leaders: Seq::empty(),
        linear_fees: LinearFee { constant: 0, coefficient: 0, certificate: 0 },
        proposal_expiration: 100,
        era,
    }
}

/// `leaders` with `k` added at the end, unless it is there already.
pub open spec fn leaders_add(leaders: Seq<PublicKey>, k: PublicKey) -> Seq<PublicKey> {
    if leaders.contains(k) {
        leaders
    } else {
        leaders.push(k)
    }
}

/// `leaders` without `k`.
pub open spec fn leaders_remove(leaders: Seq<PublicKey>, k: PublicKey) -> Seq<PublicKey> {
    leaders.filter(|x: PublicKey| x != k)
}

/// One parameter folded into the settings.
pub open spec fn apply_param(s: SettingsModel, p: ConfigParam) -> Result<SettingsModel, Error> {
    match p {
        ConfigParam::Block0Date(_) => Err(Error::ReadOnlySetting),
        ConfigParam::Discrimination(_) => Err(Error::ReadOnlySetting),
        ConfigParam::SlotsPerEpoch(_) => Err(Error::ReadOnlySetting),
        ConfigParam::SlotDuration(_) => Err(Error::ReadOnlySetting),
        ConfigParam::KESUpdateSpeed(_) => Err(Error::ReadOnlySetting),
        ConfigParam::ConsensusVersion(v) => Ok(SettingsModel { consensus_version: v, ..s }),
        ConfigParam::EpochStabilityDepth(d) => Ok(SettingsModel { epoch_stability_depth: d, ..s }),
        ConfigParam::ConsensusGenesisPraosActiveSlotsCoeff(c) => if 0 < c.0 <= 1000 {
            Ok(SettingsModel { active_slots_coeff: c, ..s })
        } else {
            Err(Error::ActiveSlotsCoeffInvalid)
        },
        ConfigParam::MaxNumberOfTransactionsPerBlock(n) => Ok(
            SettingsModel { max_number_of_transactions_per_block: n, ..s },
        ),
        ConfigParam::BftSlotsRatio(r) => Ok(SettingsModel { bft_slots_ratio: r, ..s }),
        ConfigParam::AddBftLeader(k) => Ok(SettingsModel { bft_leaders: leaders_add(s.bft_leaders, k), ..s }),
        ConfigParam::RemoveBftLeader(k) => Ok(
            SettingsModel { bft_leaders: leaders_remove(s.bft_leaders, k), ..s },
        ),
        ConfigParam::LinearFee(f) => Ok(SettingsModel { linear_fees: f, ..s }),
        ConfigParam::ProposalExpiration(n) => Ok(SettingsModel { proposal_expiration: n, ..s }),
    }
}

/// The parameters folded into the settings in order; the first failure wins.
pub open spec fn apply_params(s: SettingsModel, ps: Seq<ConfigParam>) -> Result<SettingsModel, Error>
    decreases ps.len(),
{
    if ps.len() == 0 {
        Ok(s)
    } else {
        match apply_params(s, ps.drop_last()) {
            Err(e) => Err(e),
            Ok(s2) => apply_param(s2, ps.last()),
        }
    }
}

/// Whether `k` is among `keys`.
pub fn contains_key(keys: &Vec<PublicKey>, k: &PublicKey) -> (r: bool)
    ensures
        r == keys@.contains(*k),
{
    let mut i: usize = 0;
    while i < keys.len()
        invariant
            0 <= i <= keys@.len(),
            forall|j: int| 0 <= j < i ==> keys@[j] != *k,
        decreases keys@.len() - i,
    {
        if keys[i].key_eq(k) {
            assert(keys@[i as int] == *k);
            return true;
        }
        i += 1;
    }
    false
}

fn copy_without(keys: &Vec<PublicKey>, k: &PublicKey) -> (r: Vec<PublicKey>)
    ensures
        r@ == leaders_remove(keys@, *k),
{
    let mut r: Vec<PublicKey> = Vec::new();
    let mut i: usize = 0;
    while i < keys.len()
        invariant
            0 <= i <= keys@.len(),
            r@ == leaders_remove(keys@.subrange(0, i as int), *k),
        decreases keys@.len() - i,
    {
        proof {
            let s = keys@.subrange(0, i + 1);
            assert(s.drop_last() == keys@.subrange(0, i as int));
            reveal(Seq::filter);
        }
        if !keys[i].key_eq(k) {
            r.push(keys[i]);
        }
        i += 1;
    }
    proof {
        assert(keys@.subrange(0, keys@.len() as int) == keys@);
    }
    r
}

impl Settings {
    /// Default settings within the given time era, with no BFT leader.
    pub fn new(era: TimeEra) -> (r: Settings)
        ensures
            r@ == default_settings(era),
    {
        let r = Settings {
            consensus_version: ConsensusVersion::Bft,
            consensus_nonce: [0u8; 32],
            slots_per_epoch: era.slots_per_epoch,
            slot_duration: era.slot_duration,
            epoch_stability_depth: 10,
            active_slots_coeff: Milli(220),
            max_number_of_transactions_per_block: 100,
            bft_slots_ratio: Milli(220),
            bft_leaders: Vec::new(),
            linear_fees: LinearFee { constant: 0, coefficient: 0, certificate: 0 },
            proposal_expiration: 100,
            era,
        };
        proof {
            broadcast use vstd::array::group_array_axioms;
            assert(forall|i: int| 0 <= i < 32 ==> r.consensus_nonce[i] == 0u8);
            crate::crypto::lemma_zero_digest(r.consensus_nonce);
            assert(r.bft_leaders@ =~= Seq::<PublicKey>::empty());
        }
        r
    }

    pub fn dup(&self) -> (r: Settings)
        ensures
            r@ == self@,
    {
        Settings {
            consensus_version: self.consensus_version,
            consensus_nonce: self.consensus_nonce,
            slots_per_epoch: self.slots_per_epoch,
            slot_duration: self.slot_duration,
            epoch_stability_depth: self.epoch_stability_depth,
            active_slots_coeff: self.active_slots_coeff,
            max_number_of_transactions_per_block: self.max_number_of_transactions_per_block,
            bft_slots_ratio: self.bft_slots_ratio,
            bft_leaders: crate::stake::copy_keys(&self.bft_leaders),
            linear_fees: self.linear_fees,
            proposal_expiration: self.proposal_expiration,
            era: self.era,
        }
    }

    /// Folds one parameter into the settings.
    pub fn apply_one(self, p: &ConfigParam) -> (r: Result<Settings, Error>)
        ensures
            apply_param(self@, *p) matches Ok(m) ==> (r matches Ok(s) && s@ == m),
            apply_param(self@, *p) matches Err(e) ==> r == Err::<Settings, Error>(e),
    {
        let mut s = self;
        match p {
            ConfigParam::Block0Date(_) => {
                return Err(Error::ReadOnlySetting);
            },
            ConfigParam::Discrimination(_) => {
                return Err(Error::ReadOnlySetting);
            },
            ConfigParam::SlotsPerEpoch(_) => {
                return Err(Error::ReadOnlySetting);
            },
            ConfigParam::SlotDuration(_) => {
                return Err(Error::ReadOnlySetting);
            },
            ConfigParam::KESUpdateSpeed(_) => {
                return Err(Error::ReadOnlySetting);
            },
            ConfigParam::ConsensusVersion(v) => {
                s.consensus_version = *v;
            },
            ConfigParam::EpochStabilityDepth(d) => {
                s.epoch_stability_depth = *d;
            },
            ConfigParam::ConsensusGenesisPraosActiveSlotsCoeff(c) => {
                if c.0 == 0 || c.0 > 1000 {
                    return Err(Error::ActiveSlotsCoeffInvalid);
                }
                s.active_slots_coeff = *c;
            },
            ConfigParam::MaxNumberOfTransactionsPerBlock(n) => {
                s.max_number_of_transactions_per_block = *n;
            },
            ConfigParam::BftSlotsRatio(r) => {
                s.bft_slots_ratio = *r;
            },
            ConfigParam::AddBftLeader(k) => {
                if !contains_key(&s.bft_leaders, k) {
                    s.bft_leaders.push(*k);
                }
            },
            ConfigParam::RemoveBftLeader(k) => {
                s.bft_leaders = copy_without(&s.bft_leaders, k);
            },
            ConfigParam::LinearFee(f) => {
                s.linear_fees = *f;
            },
            ConfigParam::ProposalExpiration(n) => {
                s.proposal_expiration = *n;
            },
        }
        Ok(s)
    }

    /// Folds the parameters into the settings, in order.
    pub fn apply(&self, changes: &ConfigParams) -> (r: Result<Settings, Error>)
        ensures
            apply_params(self@, changes@) matches Ok(m) ==> (r matches Ok(s) && s@ == m),
            apply_params(self@, changes@) matches Err(e) ==> r == Err::<Settings, Error>(e),
    {
        let params = changes.iter();
        let mut s = self.dup();
        let mut i: usize = 0;
        while i < params.len()
            invariant
                0 <= i <= params@.len(),
                params@ == changes@,
                apply_params(self@, params@.subrange(0, i as int)) == Ok::<SettingsModel, Error>(s@),
            decreases params@.len() - i,
        {
            proof {
                assert(params@.subrange(0, i + 1).drop_last() == params@.subrange(0, i as int));
            }
            match s.apply_one(&params[i]) {
                Ok(s2) => {
                    s = s2;
                },
                Err(e) => {
                    proof {
                        lemma_apply_params_err(self@, params@, i as int + 1);
                    }
                    return Err(e);
                },
            }
            i += 1;
        }
        proof {
            assert(params@.subrange(0, params@.len() as int) == params@);
        }
        Ok(s)
    }
}

/// Once a prefix of the parameters fails, the whole list fails the same way.
pub proof fn lemma_apply_params_err(s: SettingsModel, ps: Seq<ConfigParam>, i: int)
    requires
        0 <= i <= ps.len(),
        apply_params(s, ps.subrange(0, i)) is Err,
    ensures
        apply_params(s, ps) == apply_params(s, ps.subrange(0, i)),
    decreases ps.len() - i,
{
    if i < ps.len() {
        assert(ps.subrange(0, i + 1).drop_last() == ps.subrange(0, i));
        lemma_apply_params_err(s, ps, i + 1);
    } else {
        assert(ps.subrange(0, i) == ps);
    }
}

} // verus!
