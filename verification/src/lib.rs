//! Vanity search for Internet Computer principals.
//!
//! An identity is derived from 128 bits of entropy through a BIP-39 mnemonic,
//! a BIP-32 key walk and a secp256k1 self-authenticating principal. The search
//! draws fresh identities until the text of a principal starts with a chosen
//! prefix.
//!
//! - [`address`]: the shape of a principal's text and the prefix test.
//! - [`backend`]: the calls into the cryptographic crates, with the contracts
//!   that are taken on trust.
//! - [`identity`]: the derivation of an identity, step by step.
//! - [`progress`]: the rate of a search.
//! - [`search`]: what one attempt comes to, and the state of a search.
//! - [`shared`]: that state in atomic cells, for workers on several threads.
//! - [`coordinator`]: whole searches, on given results or on fresh ones.

pub mod address;
pub mod backend;
pub mod coordinator;
pub mod identity;
pub mod progress;
pub mod search;
pub mod shared;
