//! Addresses: a discrimination tag and one of four kinds.
use vstd::prelude::*;
use crate::crypto::{Digest, PublicKey};

verus! {

/// Which network an address belongs to.
#[derive(Clone, Copy, Debug, PartialEq, Eq, Structural)]
pub enum Discrimination {
    Production,
    Test,
}

/// What an address designates.
#[derive(Clone, Copy, Debug, PartialEq, Eq)]
pub enum Kind {
    /// A spending key.
    Single(PublicKey),
    /// A spending key and the account that groups its stake.
    Group(PublicKey, PublicKey),
    /// An account key.
    Account(PublicKey),
    /// A multisig account identifier.
    Multisig(Digest),
}

#[derive(Clone, Copy, Debug, PartialEq, Eq)]
pub struct Address(pub Discrimination, pub Kind);

/// A legacy address: the digest of the extended public key it commits to.
#[derive(Clone, Copy, Debug, PartialEq, Eq)]
pub struct OldAddress(pub Digest);

impl Address {
    pub fn discrimination(&self) -> (r: Discrimination)
        ensures
            r == self.0,
    {
        self.0
    }

    pub fn kind(&self) -> (r: &Kind)
        ensures
            *r == self.1,
    {
        &self.1
    }

    /// The key that spends from this address, for the kinds that have one.
    pub fn public_key(&self) -> (r: Option<PublicKey>)
        ensures
            r == spending_key(self.1),
    {
        match self.1 {
            Kind::Single(k) => Some(k),
            Kind::Group(k, _) => Some(k),
            _ => None,
        }
    }
}

pub open spec fn spending_key(k: Kind) -> Option<PublicKey> {
    match k {
        Kind::Single(p) => Some(p),
        Kind::Group(p, _) => Some(p),
        _ => None,
    }
}

} // verus!
