//! Chain data: transactions, blocks, their canonical encoding, the set of
//! unspent outputs and the chain engine.

pub mod codec;
pub mod transaction;
pub mod block;
pub mod utxo;
pub mod blockchain;
pub mod decode;
pub mod builder;
pub mod explorer;
