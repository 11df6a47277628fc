//! What nodes say to each other.

pub mod protocol;
pub mod p2p;
