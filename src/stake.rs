//! Stake pools: their identifiers and the delegation registry.
use vstd::prelude::*;
use crate::crypto::{be_u64, blake2b_256, blake2b_of, digest_of, lemma_digest_of, push_bytes, push_u64, Digest, PublicKey};
use crate::keymap::{Dup, KeyEq, KeyMap};
use crate::transaction::AccountIdentifier;

verus! {

/// A stake pool's identifier: the digest of its registration data.
#[derive(Clone, Copy, Debug, PartialEq, Eq, Hash, PartialOrd, Ord)]
pub struct StakePoolId(pub Digest);

impl KeyEq for StakePoolId {
    fn key_eq(&self, other: &Self) -> (r: bool) {
        let r = self.0.key_eq(&other.0);
        proof {
            if !r {
                assert(self.0 != other.0);
            }
        }
        r
    }
}

/// The keys a pool leads blocks with.
#[derive(Clone, Copy, Debug, PartialEq, Eq)]
pub struct GenesisPraosLeader {
    pub kes_public_key: PublicKey,
    pub vrf_public_key: PublicKey,
}

#[derive(Clone, Debug, PartialEq, Eq)]
pub struct StakePoolInfo {
    pub serial: u128,
    pub owners: Vec<AccountIdentifier>,
    pub initial_key: GenesisPraosLeader,
}

/// What a pool registration holds, as plain values.
pub struct StakePoolInfoModel {
    pub serial: u128,
    pub owners: Seq<AccountIdentifier>,
    pub initial_key: GenesisPraosLeader,
}

impl View for StakePoolInfo {
    type V = StakePoolInfoModel;

    open spec fn view(&self) -> StakePoolInfoModel {
        StakePoolInfoModel { serial: self.serial, owners: self.owners@, initial_key: self.initial_key }
    }
}

/// Copies a list of keys.
pub fn copy_keys(v: &Vec<[u8; 32]>) -> (r: Vec<[u8; 32]>)
    ensures
        r@ == v@,
{
    let mut r: Vec<[u8; 32]> = Vec::new();
    let mut i: usize = 0;
    while i < v.len()
        invariant
            0 <= i <= v@.len(),
            r@ == v@.subrange(0, i as int),
        decreases v@.len() - i,
    {
        r.push(v[i]);
        proof {
            assert(r@ =~= v@.subrange(0, i + 1));
        }
        i += 1;
    }
    proof {
        assert(r@ =~= v@);
    }
    r
}

impl Dup for StakePoolInfo {
    fn dup(&self) -> (r: Self) {
        StakePoolInfo { serial: self.serial, owners: copy_keys(&self.owners), initial_key: self.initial_key }
    }
}

pub open spec fn be_u128(n: u128) -> Seq<u8> {
    be_u64((n / 0x1_0000_0000_0000_0000) as u64) + be_u64((n % 0x1_0000_0000_0000_0000) as u64)
}

pub open spec fn keys_bytes(s: Seq<[u8; 32]>) -> Seq<u8>
    decreases s.len(),
{
    if s.len() == 0 {
        Seq::empty()
    } else {
        keys_bytes(s.drop_last()) + s.last()@
    }
}

/// The bytes a pool identifier is the digest of: the serial (16 bytes, big
/// endian), each owner key in order, the KES key and the VRF key.
pub open spec fn pool_id_preimage(info: StakePoolInfoModel) -> Seq<u8> {
    be_u128(info.serial) + keys_bytes(info.owners) + info.initial_key.kes_public_key@
        + info.initial_key.vrf_public_key@
}

/// Appends each key of `keys`, in order, to `out`.
pub fn push_keys(out: &mut Vec<u8>, keys: &Vec<[u8; 32]>)
    ensures
        final(out)@ == old(out)@ + keys_bytes(keys@),
{
    let ghost start = out@;
    let mut i: usize = 0;
    while i < keys.len()
        invariant
            0 <= i <= keys@.len(),
            out@ == start + keys_bytes(keys@.subrange(0, i as int)),
        decreases keys@.len() - i,
    {
        proof {
            assert(keys@.subrange(0, i + 1).drop_last() == keys@.subrange(0, i as int));
        }
        push_bytes(out, &keys[i]);
        proof {
            assert(out@ =~= start + keys_bytes(keys@.subrange(0, i + 1)));
        }
        i += 1;
    }
    proof {
        assert(keys@.subrange(0, keys@.len() as int) == keys@);
    }
}

impl StakePoolInfo {
    /// The pool's identifier.
    pub fn to_id(&self) -> (r: StakePoolId)
        ensures
            r.0@ == blake2b_of(pool_id_preimage(self@)),
            r.0 == digest_of(pool_id_preimage(self@)),
    {
        let mut v: Vec<u8> = Vec::new();
        push_u64(&mut v, (self.serial / 0x1_0000_0000_0000_0000) as u64);
        push_u64(&mut v, (self.serial % 0x1_0000_0000_0000_0000) as u64);
        push_keys(&mut v, &self.owners);
        push_bytes(&mut v, &self.initial_key.kes_public_key);
        push_bytes(&mut v, &self.initial_key.vrf_public_key);
        proof {
            assert(v@ =~= pool_id_preimage(self@));
        }
        let d = blake2b_256(&v);
        proof {
            lemma_digest_of(d, pool_id_preimage(self@));
        }
        StakePoolId(d)
    }
}

#[derive(Clone, Copy, Debug, PartialEq, Eq)]
pub enum DelegationError {
    StakeDelegationPoolKeyIsInvalid(StakePoolId),
    StakeDelegationAccountIsInvalid(AccountIdentifier),
    StakePoolAlreadyRegistered(StakePoolId),
    StakePoolDoesNotExist(StakePoolId),
}

/// The registry of stake pools.
#[derive(Clone, Debug)]
pub struct DelegationState {
    pub stake_pools: KeyMap<StakePoolId, StakePoolInfo>,
}

impl DelegationState {
    pub open spec fn wf(&self) -> bool {
        self.stake_pools.wf()
    }

    pub open spec fn view(&self) -> Map<StakePoolId, StakePoolInfoModel> {
        self.stake_pools@
    }

    pub fn new() -> (r: Self)
        ensures
            r.wf(),
            r@ == Map::<StakePoolId, StakePoolInfoModel>::empty(),
    {
        DelegationState { stake_pools: KeyMap::new() }
    }

    pub fn dup(&self) -> (r: Self)
        requires
            self.wf(),
        ensures
            r.wf(),
            r@ == self@,
    {
        DelegationState { stake_pools: self.stake_pools.dup() }
    }

    pub fn stake_pool_exists(&self, id: &StakePoolId) -> (r: bool)
        requires
            self.wf(),
        ensures
            r == self@.contains_key(*id),
    {
        self.stake_pools.contains_key(id)
    }

    /// Registers a pool under its identifier; fails when one is registered
    /// under it already.
    pub fn register_stake_pool(self, info: StakePoolInfo) -> (r: Result<Self, DelegationError>)
        requires
            self.wf(),
        ensures
            ({
                let id = StakePoolId(digest_of(pool_id_preimage(info@)));
                &&& self@.contains_key(id) ==> r == Err::<Self, DelegationError>(
                    DelegationError::StakePoolAlreadyRegistered(id),
                )
                &&& !self@.contains_key(id) ==> (r matches Ok(d) && d.wf() && d@ == self@.insert(id, info@))
            }),
    {
        let id = info.to_id();
        if self.stake_pools.contains_key(&id) {
            return Err(DelegationError::StakePoolAlreadyRegistered(id));
        }
        let mut d = self;
        d.stake_pools.insert_new(id, info);
        Ok(d)
    }

    /// Removes a registered pool.
    pub fn deregister_stake_pool(self, id: &StakePoolId) -> (r: Result<Self, DelegationError>)
        requires
            self.wf(),
        ensures
            !self@.contains_key(*id) ==> r == Err::<Self, DelegationError>(DelegationError::StakePoolDoesNotExist(*id)),
            self@.contains_key(*id) ==> (r matches Ok(d) && d.wf() && d@ == self@.remove(*id)),
    {
        match self.stake_pools.find(id) {
            None => Err(DelegationError::StakePoolDoesNotExist(*id)),
            Some(i) => {
                let mut d = self;
                d.stake_pools.remove_at(i);
                Ok(d)
            },
        }
    }

    pub fn lookup(&self, id: &StakePoolId) -> (r: Option<&StakePoolInfo>)
        requires
            self.wf(),
        ensures
            r.is_none() <==> !self@.contains_key(*id),
            r matches Some(info) ==> info@ == self@[*id],
    {
        self.stake_pools.get(id)
    }
}

} // verus!
