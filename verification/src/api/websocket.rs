//! The records of the event stream: what subscribers are told of a new
//! block or transaction, and what they may ask.

use crate::chain::block::Block;
use crate::chain::transaction::Transaction;
use crate::chain::utxo::{fee_in, UtxoSet};
use crate::crypto::hash::{hex_text, Hashable};
use vstd::prelude::*;
use vstd::string::StringExecFns;

verus! {

/// What subscribers are told of a new block.
#[derive(Debug)]
pub struct BlockNotification {
    pub hash: String,
    pub height: u64,
    pub timestamp: u64,
    pub difficulty: u32,
    pub size: usize,
    pub transaction_count: usize,
    pub miner: Option<String>,
}

impl BlockNotification {
    /// The notification of a block. The miner is not named: it is given
    /// as `Unknown` where the first transaction has an output, and not
    /// at all where it has none.
    pub fn from_block(block: &Block) -> (note: Self)
        ensures
            note.hash@ == hex_text(block@.header.hash()),
            note.height == block@.header.height,
            note.timestamp == block@.header.timestamp,
            note.difficulty == block@.header.difficulty,
            note.size == block@.encoding().len(),
            note.transaction_count == block@.transactions.len(),
            note.miner is Some <==> block@.transactions.len() > 0
                && block@.transactions[0].outputs.len() > 0,
            note.miner matches Some(name) ==> name@ == "Unknown"@,
    {
        let miner = match block.get_coinbase_transaction() {
            None => None,
            Some(coinbase) => if coinbase.outputs.len() > 0 {
                Some(String::from_str("Unknown"))
            } else {
                None
            },
        };
        BlockNotification {
            hash: block.hash().to_hex(),
            height: block.header.height,
            timestamp: block.header.timestamp,
            difficulty: block.header.difficulty,
            size: block.size(),
            transaction_count: block.transactions.len(),
            miner,
        }
    }
}

/// What subscribers are told of a new transaction.
#[derive(Debug)]
pub struct TransactionNotification {
    pub hash: String,
    pub size: usize,
    pub fee: u64,
    pub fee_rate: u64,
    pub input_count: usize,
    pub output_count: usize,
    pub value: u64,
}

impl TransactionNotification {
    /// The notification of a transaction against the unspent outputs: its
    /// fee, and its fee for each byte of its encoding, rounded down; both
    /// are given as nothing where the fee cannot be told. What its outputs
    /// are worth is held at `u64::MAX`.
    pub fn from_transaction(tx: &Transaction, utxos: &UtxoSet) -> (note: Self)
        ensures
            note.hash@ == hex_text(tx@.txid()),
            note.size == tx@.encoding().len(),
            note.fee == (match fee_in(tx@, utxos@) {
                Some(fee) => fee,
                None => 0,
            }),
            note.fee_rate == (if tx@.encoding().len() > 0 {
                note.fee as int / (tx@.encoding().len() as int)
            } else {
                0
            }),
            note.input_count == tx@.inputs.len(),
            note.output_count == tx@.outputs.len(),
            note.value == (if tx@.total_output_value() <= u64::MAX {
                tx@.total_output_value()
            } else {
                u64::MAX as int
            }),
    {
        let size = tx.size();
        let fee = match tx.fee(utxos) {
            Some(fee) => fee,
            None => 0,
        };
        let fee_rate = if size > 0 {
            fee / (size as u64)
        } else {
            0
        };
        TransactionNotification {
            hash: tx.hash().to_hex(),
            size,
            fee,
            fee_rate,
            input_count: tx.inputs.len(),
            output_count: tx.outputs.len(),
            value: tx.total_output_value(),
        }
    }
}

/// What a subscriber may ask.
#[derive(Debug)]
pub enum WebSocketRequest {
    /// To be told of the named kinds of event.
    Subscribe { events: Vec<String> },
    /// To be told of them no more.
    Unsubscribe { events: Vec<String> },
    /// Where the chain stands.
    GetStatus,
    /// A sign of life.
    Ping,
}

} // verus!
