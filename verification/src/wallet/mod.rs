//! Keys that grow from a mnemonic sentence, the wallet that holds
//! addresses, and groups of signers that spend together.

pub mod bip39;
pub mod descriptor;
pub mod multisig;
pub mod wallet;
