//! Verified core of a multi-signature wallet service whose signers, proposed
//! messages and metadata are kept encrypted under identity-based encryption.

pub mod codec;
pub mod command;
pub mod collections;
pub mod crypto;
pub mod laws;
pub mod privacy;
pub mod registry;
pub mod wallet;
pub mod vetkey;
