//! Proof of work: the keyed hash, the difficulty rule and the nonce search.

pub mod difficulty;
pub mod miner;
pub mod randomx;
