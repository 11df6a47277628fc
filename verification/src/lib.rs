//! A proof-of-work UTXO chain: hashing, keys and signatures, canonical
//! encoding, transactions, blocks, the unspent-output set, monetary policy,
//! difficulty, validation, the chain engine, mining, the messages between
//! peers and wallets, each with a machine-checked contract.

pub mod api;
pub mod chain;
pub mod config;
pub mod consensus;
pub mod crypto;
pub mod error;
pub mod mining;
pub mod network;
pub mod storage;
pub mod wallet;

pub use error::QtcError;
