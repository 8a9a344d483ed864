//! A mock ledger for a proof-of-stake / BFT blockchain: an immutable snapshot
//! advanced by applying blocks of fragments, with every step verified.
pub mod crypto;
pub mod keymap;
pub mod value;
pub mod address;
pub mod transaction;
pub mod utxo;
pub mod stake;
pub mod account;
pub mod multisig;
pub mod block;
pub mod config;
pub mod setting;
pub mod update;
pub mod certificate;
pub mod message;
pub mod ledger;
pub mod builder;
pub mod codec;
pub mod split;
