//! Certificates: stake delegation and stake pool registration and retirement.
use vstd::prelude::*;
use crate::crypto::{ed25519_accepts, ed25519_verify, push_bytes, Signature};
use crate::stake::{pool_id_preimage, push_keys, DelegationState, StakePoolId, StakePoolInfo, StakePoolInfoModel};
use crate::crypto::push_u64;
use crate::transaction::AccountIdentifier;

verus! {

#[derive(Clone, Copy, Debug, PartialEq, Eq)]
pub struct StakeDelegation {
    pub stake_key_id: AccountIdentifier,
    pub pool_id: StakePoolId,
}

#[derive(Clone, Copy, Debug, PartialEq, Eq)]
pub struct StakePoolRetirement {
    pub pool_id: StakePoolId,
}

#[derive(Clone, Debug, PartialEq, Eq)]
pub enum CertificateContent {
    StakeDelegation(StakeDelegation),
    StakePoolRegistration(StakePoolInfo),
    StakePoolRetirement(StakePoolRetirement),
}

/// A certificate and the signatures of the keys that must authorise it, in
/// the order of `signers`.
#[derive(Clone, Debug, PartialEq, Eq)]
pub struct Certificate {
    pub content: CertificateContent,
    pub signatures: Vec<Signature>,
}

/// The bytes of a certificate's content.
pub open spec fn content_bytes(c: CertificateContent) -> Seq<u8> {
    match c {
        CertificateContent::StakeDelegation(d) => seq![1u8] + d.stake_key_id@ + d.pool_id.0@,
        CertificateContent::StakePoolRegistration(info) => seq![2u8] + pool_id_preimage(info@),
        CertificateContent::StakePoolRetirement(r) => seq![3u8] + r.pool_id.0@,
    }
}

/// The keys that must sign: the delegating account, the owners of the pool
/// being registered, or the owners of the registered pool being retired.
pub open spec fn signers(c: CertificateContent, pools: Map<StakePoolId, StakePoolInfoModel>) -> Seq<[u8; 32]> {
    match c {
        CertificateContent::StakeDelegation(d) => seq![d.stake_key_id],
        CertificateContent::StakePoolRegistration(info) => info.owners@,
        CertificateContent::StakePoolRetirement(r) => if pools.contains_key(r.pool_id) {
            pools[r.pool_id].owners
        } else {
            Seq::empty()
        },
    }
}

/// Every signer signed the content, and there is at least one signer.
pub open spec fn certificate_verified(c: Certificate, pools: Map<StakePoolId, StakePoolInfoModel>) -> bool {
    let s = signers(c.content, pools);
    &&& s.len() > 0
    &&& c.signatures@.len() == s.len()
    &&& forall|i: int| 0 <= i < s.len() ==> ed25519_accepts(content_bytes(c.content), #[trigger] s[i]@, c.signatures@[i]@)
}

impl CertificateContent {
    /// Appends the content's bytes to `out`.
    pub fn serialize_into(&self, out: &mut Vec<u8>)
        ensures
            final(out)@ == old(out)@ + content_bytes(*self),
    {
        match self {
            CertificateContent::StakeDelegation(d) => {
                out.push(1);
                push_bytes(out, &d.stake_key_id);
                push_bytes(out, &d.pool_id.0);
            },
            CertificateContent::StakePoolRegistration(info) => {
                out.push(2);
                push_u64(out, (info.serial / 0x1_0000_0000_0000_0000) as u64);
                push_u64(out, (info.serial % 0x1_0000_0000_0000_0000) as u64);
                push_keys(out, &info.owners);
                push_bytes(out, &info.initial_key.kes_public_key);
                push_bytes(out, &info.initial_key.vrf_public_key);
            },
            CertificateContent::StakePoolRetirement(r) => {
                out.push(3);
                push_bytes(out, &r.pool_id.0);
            },
        }
        proof {
            assert(final(out)@ =~= old(out)@ + content_bytes(*self));
        }
    }
}

impl Certificate {
    /// Checks the certificate's own signatures against the pool registry.
    pub fn verify(&self, delegation: &DelegationState) -> (r: bool)
        requires
            delegation.wf(),
        ensures
            r == certificate_verified(*self, delegation@),
    {
        let mut data: Vec<u8> = Vec::new();
        self.content.serialize_into(&mut data);
        let signers: Vec<[u8; 32]> = match &self.content {
            CertificateContent::StakeDelegation(d) => vec![d.stake_key_id],
            CertificateContent::StakePoolRegistration(info) => crate::stake::copy_keys(&info.owners),
            CertificateContent::StakePoolRetirement(r) => match delegation.lookup(&r.pool_id) {
                Some(info) => crate::stake::copy_keys(&info.owners),
                None => Vec::new(),
            },
        };
        proof {
            assert(signers@ =~= crate::certificate::signers(self.content, delegation@));
        }
        if signers.len() == 0 || self.signatures.len() != signers.len() {
            return false;
        }
        let mut i: usize = 0;
        while i < signers.len()
            invariant
                0 <= i <= signers@.len(),
                signers@.len() == self.signatures@.len(),
                signers@.len() > 0,
                signers@ == crate::certificate::signers(self.content, delegation@),
                data@ == content_bytes(self.content),
                forall|j: int| 0 <= j < i ==> ed25519_accepts(data@, #[trigger] signers@[j]@, self.signatures@[j]@),
            decreases signers@.len() - i,
        {
            if !ed25519_verify(&data, &signers[i], &self.signatures[i]) {
                assert(!ed25519_accepts(data@, signers@[i as int]@, self.signatures@[i as int]@));
                return false;
            }
            i += 1;
        }
        true
    }
}

} // verus!
