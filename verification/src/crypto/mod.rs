//! Hashing, keys, signatures and addresses.

pub mod hash;
pub mod keys;
pub mod pqc;
pub mod signatures;
