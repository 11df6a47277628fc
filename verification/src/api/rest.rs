//! The records of the read interface: the chain, its blocks, transactions
//! and unspent outputs as text and numbers, and the taking of a raw
//! transaction.

use crate::chain::block::{unix_time_now, Block, BlockView};
use crate::chain::blockchain::{Blockchain, ChainState};
use crate::chain::decode::decode_transaction;
use crate::chain::transaction::Transaction;
use crate::chain::utxo::{
    balance_of, fee_in, input_value, inputs_known, outputs_of, UtxoSet,
};
use crate::crypto::hash::{hex_bytes, hex_decode, hex_text, is_hex_text, Hashable};
use crate::crypto::keys::{address_defect, is_valid_address, qtc_tag, ADDRESS_VERSION};
use crate::error::{QtcError, TxReason};
use vstd::prelude::*;
use vstd::utf8::encode_utf8;

verus! {

/// The number of blocks that a listing shows where none is asked for.
pub const DEFAULT_BLOCKS_LIMIT: u64 = 10;

/// The most blocks that a listing shows.
pub const MAX_BLOCKS_LIMIT: u64 = 100;

/// An answer of the read interface: what was asked for, or why not.
#[derive(Debug)]
pub struct ApiResponse<T> {
    pub success: bool,
    pub data: Option<T>,
    pub error: Option<String>,
    pub timestamp: u64,
}

impl<T> ApiResponse<T> {
    /// The answer that carries `data`, stamped with the clock's time.
    pub fn success(data: T) -> (response: Self)
        ensures
            response.success,
            response.data == Some(data),
            response.error is None,
    {
        ApiResponse { success: true, data: Some(data), error: None, timestamp: unix_time_now() }
    }

    /// The answer that carries an error, stamped with the clock's time.
    pub fn error(message: String) -> (response: Self)
        ensures
            !response.success,
            response.data is None,
            response.error == Some(message),
    {
        ApiResponse { success: false, data: None, error: Some(message), timestamp: unix_time_now() }
    }
}

/// Why the read interface refuses.
#[derive(Clone, Copy, Debug, PartialEq, Eq, Structural)]
pub enum ApiReason {
    /// The text is no hexadecimal.
    InvalidHex,
    /// The bytes are no transaction.
    MalformedTransaction,
    /// The chain refuses the transaction.
    InvalidTransaction(TxReason),
    /// The text is no address.
    InvalidAddress,
    /// What an address owns does not fit in 64 bits.
    ValueOverflow,
}

/// Where the chain stands.
#[derive(Debug)]
pub struct ChainInfo {
    pub height: u64,
    pub tip: String,
    pub difficulty: u32,
    pub total_supply: u64,
    pub total_work: u128,
    pub block_count: u64,
}

impl ChainInfo {
    /// The record of a chain state: the tip in hexadecimal, and one more
    /// block than the height.
    pub fn from_state(state: &ChainState) -> (info: Self)
        requires
            state.height < u64::MAX,
        ensures
            info.height == state.height,
            info.tip@ == hex_text(state.tip@),
            info.difficulty == state.difficulty,
            info.total_supply == state.total_supply,
            info.total_work == state.total_work,
            info.block_count == state.height + 1,
    {
        ChainInfo {
            height: state.height,
            tip: state.tip.to_hex(),
            difficulty: state.difficulty,
            total_supply: state.total_supply,
            total_work: state.total_work,
            block_count: state.height + 1,
        }
    }
}

/// A block as text and numbers, with the hashes of its transactions.
#[derive(Debug)]
pub struct BlockInfo {
    pub hash: String,
    pub height: u64,
    pub previous_hash: String,
    pub merkle_root: String,
    pub timestamp: u64,
    pub difficulty: u32,
    pub nonce: u64,
    pub size: usize,
    pub transaction_count: usize,
    pub transactions: Vec<String>,
}

/// Whether a record is that of a block.
pub open spec fn describes_block(info: BlockInfo, block: BlockView) -> bool {
    &&& info.hash@ == hex_text(block.header.hash())
    &&& info.height == block.header.height
    &&& info.previous_hash@ == hex_text(block.header.previous_hash)
    &&& info.merkle_root@ == hex_text(block.header.merkle_root)
    &&& info.timestamp == block.header.timestamp
    &&& info.difficulty == block.header.difficulty
    &&& info.nonce == block.header.nonce
    &&& info.size == block.encoding().len()
    &&& info.transaction_count == block.transactions.len()
    &&& info.transactions@.len() == block.transactions.len()
    &&& forall|i: int|
        0 <= i < block.transactions.len() ==> (#[trigger] info.transactions@[i])@ == hex_text(
            block.transactions[i].txid(),
        )
}

impl BlockInfo {
    /// The record of a block.
    pub fn from_block(block: &Block) -> (info: Self)
        ensures
            describes_block(info, block@),
    {
        let mut transactions: Vec<String> = Vec::new();
        let mut i: usize = 0;
        while i < block.transactions.len()
            invariant
                i <= block.transactions@.len(),
                block@.transactions.len() == block.transactions@.len(),
                transactions@.len() == i,
                forall|j: int|
                    0 <= j < i ==> (#[trigger] transactions@[j])@ == hex_text(
                        block@.transactions[j].txid(),
                    ),
            decreases block.transactions@.len() - i,
        {
            assert(block.transactions@[i as int]@ == block@.transactions[i as int]);
            transactions.push(block.transactions[i].hash().to_hex());
            i += 1;
        }
        BlockInfo {
            hash: block.hash().to_hex(),
            height: block.header.height,
            previous_hash: block.header.previous_hash.to_hex(),
            merkle_root: block.header.merkle_root.to_hex(),
            timestamp: block.header.timestamp,
            difficulty: block.header.difficulty,
            nonce: block.header.nonce,
            size: block.size(),
            transaction_count: block.transactions.len(),
            transactions,
        }
    }
}

/// A transaction as text and numbers.
#[derive(Debug)]
pub struct TransactionInfo {
    pub hash: String,
    pub version: u32,
    pub lock_time: u64,
    pub size: usize,
    pub input_count: usize,
    pub output_count: usize,
    pub total_input_value: u64,
    pub total_output_value: u64,
    pub fee: u64,
    pub is_coinbase: bool,
}

impl TransactionInfo {
    /// The record of a transaction against the unspent outputs. What its
    /// inputs are worth and its fee are given as nothing where they cannot
    /// be told, as of a transaction whose inputs are spent; what its
    /// outputs are worth is held at `u64::MAX`.
    pub fn from_transaction(tx: &Transaction, utxos: &UtxoSet) -> (info: Self)
        ensures
            info.hash@ == hex_text(tx@.txid()),
            info.version == tx@.version,
            info.lock_time == tx@.lock_time,
            info.size == tx@.encoding().len(),
            info.input_count == tx@.inputs.len(),
            info.output_count == tx@.outputs.len(),
            info.total_input_value == (if inputs_known(utxos@, tx@.inputs) && input_value(
                utxos@,
                tx@.inputs,
            ) <= u64::MAX {
                input_value(utxos@, tx@.inputs)
            } else {
                0
            }),
            info.fee == (match fee_in(tx@, utxos@) {
                Some(fee) => fee,
                None => 0,
            }),
            info.total_output_value == (if tx@.total_output_value() <= u64::MAX {
                tx@.total_output_value()
            } else {
                u64::MAX as int
            }),
            info.is_coinbase == tx@.is_coinbase(),
    {
        TransactionInfo {
            hash: tx.hash().to_hex(),
            version: tx.version,
            lock_time: tx.lock_time,
            size: tx.size(),
            input_count: tx.inputs.len(),
            output_count: tx.outputs.len(),
            total_input_value: match tx.total_input_value(utxos) {
                Some(value) => value,
                None => 0,
            },
            total_output_value: tx.total_output_value(),
            fee: match tx.fee(utxos) {
                Some(fee) => fee,
                None => 0,
            },
            is_coinbase: tx.is_coinbase(),
        }
    }
}

/// What an address owns.
#[derive(Debug)]
pub struct AddressInfo {
    pub address: String,
    pub balance: u64,
    pub transaction_count: u64,
    pub received: u64,
    pub sent: u64,
}

impl AddressInfo {
    /// The record of a valid address: what it owns on the chain, which
    /// also stands for what it received; its transactions and what it
    /// sent are not counted.
    pub fn for_address(chain: &Blockchain, address: &str) -> (out: Result<Self, ApiReason>)
        ensures
            out is Ok <==> address_defect(encode_utf8(address@), qtc_tag(), ADDRESS_VERSION)
                is None && balance_of(chain.utxos(), address@) <= u64::MAX,
            out matches Ok(info) ==> {
                &&& info.address@ == address@
                &&& info.balance == balance_of(chain.utxos(), address@)
                &&& info.received == info.balance
                &&& info.transaction_count == 0
                &&& info.sent == 0
            },
            out matches Err(e) ==> e == if address_defect(
                encode_utf8(address@),
                qtc_tag(),
                ADDRESS_VERSION,
            ) is Some {
                ApiReason::InvalidAddress
            } else {
                ApiReason::ValueOverflow
            },
    {
        if !is_valid_address(address) {
            return Err(ApiReason::InvalidAddress);
        }
        match chain.get_balance(address) {
            Err(_) => Err(ApiReason::ValueOverflow),
            Ok(balance) => Ok(
                AddressInfo {
                    address: address.to_string(),
                    balance,
                    transaction_count: 0,
                    received: balance,
                    sent: 0,
                },
            ),
        }
    }
}

/// An unspent output as text and numbers.
#[derive(Debug)]
pub struct UtxoInfo {
    pub txid: String,
    pub vout: u32,
    pub value: u64,
    pub height: u64,
    pub confirmations: u64,
    pub is_coinbase: bool,
}

/// Whether records are those of outputs, given as hash, index and value,
/// on a chain of the given height.
pub open spec fn describe_outputs(
    infos: Seq<UtxoInfo>,
    outputs: Seq<(Seq<u8>, u32, u64)>,
    chain_height: u64,
) -> bool {
    &&& infos.len() == outputs.len()
    &&& forall|i: int|
        0 <= i < outputs.len() ==> {
            &&& (#[trigger] infos[i]).txid@ == hex_text(outputs[i].0)
            &&& infos[i].vout == outputs[i].1
            &&& infos[i].value == outputs[i].2
            &&& infos[i].height == 0
            &&& infos[i].confirmations == chain_height
            &&& !infos[i].is_coinbase
        }
}

/// The records of the unspent outputs that a valid address owns on the
/// chain, in the chain's order. The height of an output is not looked
/// up: it is given as nothing, the height of the chain stands for the
/// confirmations, and no output is marked as a coinbase.
pub fn address_utxos(chain: &Blockchain, address: &str) -> (out: Result<Vec<UtxoInfo>, ApiReason>)
    requires
        chain.well_formed(),
    ensures
        out is Ok <==> address_defect(encode_utf8(address@), qtc_tag(), ADDRESS_VERSION) is None,
        out matches Ok(infos) ==> describe_outputs(
            infos@,
            outputs_of(chain.utxos(), address@),
            chain.spec_height() as u64,
        ),
        out matches Err(e) ==> e == ApiReason::InvalidAddress,
{
    if !is_valid_address(address) {
        return Err(ApiReason::InvalidAddress);
    }
    let outputs = match chain.get_utxos(address) {
        Ok(outputs) => outputs,
        Err(_) => Vec::new(),
    };
    let height = chain.height();
    let mut infos: Vec<UtxoInfo> = Vec::new();
    let mut i: usize = 0;
    while i < outputs.len()
        invariant
            i <= outputs@.len(),
            infos@.len() == i,
            height == chain.spec_height(),
            forall|j: int|
                0 <= j < i ==> {
                    &&& (#[trigger] infos@[j]).txid@ == hex_text(outputs@[j].0@)
                    &&& infos@[j].vout == outputs@[j].1
                    &&& infos@[j].value == outputs@[j].2
                    &&& infos@[j].height == 0
                    &&& infos@[j].confirmations == height
                    &&& !infos@[j].is_coinbase
                },
        decreases outputs@.len() - i,
    {
        infos.push(
            UtxoInfo {
                txid: outputs[i].0.to_hex(),
                vout: outputs[i].1,
                value: outputs[i].2,
                height: 0,
                confirmations: height,
                is_coinbase: false,
            },
        );
        i += 1;
    }
    Ok(infos)
}

/// What the pool of waiting transactions holds.
#[derive(Clone, Copy, Debug, PartialEq, Eq, Structural)]
pub struct MempoolInfo {
    pub size: usize,
    pub bytes: usize,
    pub usage: usize,
    pub max_mempool: usize,
    pub fee_rate: u64,
}

/// What the node says of its network.
#[derive(Debug)]
pub struct NetworkInfo {
    pub version: String,
    pub protocol_version: u32,
    pub connections: usize,
    pub networks: Vec<String>,
    pub relay_fee: u64,
    pub incremental_fee: u64,
}

/// A transaction handed in as the hexadecimal text of its encoding.
#[derive(Debug)]
pub struct SendTransactionRequest {
    pub raw_transaction: String,
}

/// The hash of the transaction that a hexadecimal text spells, as text,
/// or the first reason for which a chain does not take it: the text is
/// hexadecimal; the bytes are the encoding of a transaction; the
/// transaction is valid against the unspent outputs at the given height.
pub open spec fn raw_transaction_outcome(chain: &Blockchain, raw: Seq<char>) -> Result<
    Seq<char>,
    ApiReason,
> {
    if !is_hex_text(raw) {
        Err(ApiReason::InvalidHex)
    } else {
        match decode_transaction(hex_bytes(raw)) {
            None => Err(ApiReason::MalformedTransaction),
            Some(tx) => match chain.limits().tx_defect(
                tx,
                chain.utxos(),
                chain.spec_height() as u64,
            ) {
                Some(reason) => Err(ApiReason::InvalidTransaction(reason)),
                None => Ok(hex_text(tx.txid())),
            },
        }
    }
}

impl SendTransactionRequest {
    /// Reads the transaction and holds it against the chain. Gives the
    /// transaction and its hash as text.
    pub fn accept(&self, chain: &Blockchain) -> (out: Result<(Transaction, String), ApiReason>)
        requires
            chain.well_formed(),
        ensures
            match raw_transaction_outcome(chain, self.raw_transaction@) {
                Ok(hash) => out matches Ok((tx, text)) && text@ == hash && Some(tx@)
                    == decode_transaction(hex_bytes(self.raw_transaction@)),
                Err(e) => out == Err::<(Transaction, String), ApiReason>(e),
            },
    {
        let bytes = match hex_decode(self.raw_transaction.as_str()) {
            Err(_) => {
                return Err(ApiReason::InvalidHex);
            },
            Ok(bytes) => bytes,
        };
        let tx = match Transaction::decode(bytes.as_slice()) {
            None => {
                return Err(ApiReason::MalformedTransaction);
            },
            Some(tx) => tx,
        };
        match chain.is_valid_transaction(&tx) {
            Err(QtcError::Transaction(reason)) => Err(ApiReason::InvalidTransaction(reason)),
            Err(_) => Err(ApiReason::MalformedTransaction),
            Ok(_) => {
                let text = tx.hash().to_hex();
                Ok((tx, text))
            },
        }
    }
}

/// How a block is to be shown.
#[derive(Clone, Copy, Debug)]
pub struct BlockQuery {
    pub verbose: Option<bool>,
}

/// How a transaction is to be shown.
#[derive(Clone, Copy, Debug)]
pub struct TransactionQuery {
    pub verbose: Option<bool>,
}

/// Which blocks a listing shows: how many, and how many below the tip it
/// starts.
#[derive(Clone, Copy, Debug)]
pub struct BlocksQuery {
    pub limit: Option<u64>,
    pub offset: Option<u64>,
}

impl BlocksQuery {
    /// The number of blocks asked for: 10 where none is named, 100 at
    /// most.
    pub open spec fn spec_limit(self) -> u64 {
        match self.limit {
            None => DEFAULT_BLOCKS_LIMIT,
            Some(limit) => if limit < MAX_BLOCKS_LIMIT {
                limit
            } else {
                MAX_BLOCKS_LIMIT
            },
        }
    }

    /// How many blocks below the tip the listing starts: none where no
    /// number is named.
    pub open spec fn spec_offset(self) -> u64 {
        match self.offset {
            None => 0,
            Some(offset) => offset,
        }
    }

    /// The height of the newest block of the listing on a chain of the
    /// given height, if the listing shows any block.
    pub open spec fn newest(self, height: u64) -> Option<int> {
        if self.spec_limit() == 0 || self.spec_offset() > height {
            None
        } else {
            Some(height - self.spec_offset())
        }
    }

    /// The number of blocks that the listing shows on a chain of the
    /// given height.
    pub open spec fn shown(self, height: u64) -> int {
        match self.newest(height) {
            None => 0,
            Some(newest) => if newest + 1 < self.spec_limit() {
                newest + 1
            } else {
                self.spec_limit() as int
            },
        }
    }

    /// The number of blocks asked for.
    pub fn limit(&self) -> (limit: u64)
        ensures
            limit == self.spec_limit(),
    {
        match self.limit {
            None => DEFAULT_BLOCKS_LIMIT,
            Some(limit) => if limit < MAX_BLOCKS_LIMIT {
                limit
            } else {
                MAX_BLOCKS_LIMIT
            },
        }
    }

    /// How many blocks below the tip the listing starts.
    pub fn offset(&self) -> (offset: u64)
        ensures
            offset == self.spec_offset(),
    {
        match self.offset {
            None => 0,
            Some(offset) => offset,
        }
    }

    /// The records of the blocks that the listing shows, the newest
    /// first: from the block `offset` below the tip downwards, `limit`
    /// blocks or as many as there are.
    pub fn list_blocks(&self, chain: &Blockchain) -> (infos: Vec<BlockInfo>)
        requires
            chain.well_formed(),
        ensures
            infos@.len() == self.shown(chain.spec_height() as u64),
            forall|i: int|
                0 <= i < infos@.len() ==> describes_block(
                    #[trigger] infos@[i],
                    chain.chain()[self.newest(chain.spec_height() as u64)->0 - i],
                ),
    {
        let height = chain.height();
        let limit = self.limit();
        let offset = self.offset();
        let mut infos: Vec<BlockInfo> = Vec::new();
        if limit == 0 || offset > height {
            return infos;
        }
        let newest = height - offset;
        let count = if newest + 1 < limit {
            newest + 1
        } else {
            limit
        };
        let mut i: u64 = 0;
        while i < count
            invariant
                i <= count <= newest + 1,
                count == self.shown(chain.spec_height() as u64),
                Some(newest as int) == self.newest(chain.spec_height() as u64),
                newest <= chain.spec_height(),
                chain.well_formed(),
                infos@.len() == i,
                forall|j: int|
                    0 <= j < i ==> describes_block(#[trigger] infos@[j], chain.chain()[newest - j]),
            decreases count - i,
        {
            match chain.get_block_by_height(newest - i) {
                Ok(Some(block)) => {
                    infos.push(BlockInfo::from_block(&block));
                },
                _ => {
                    assert(false);
                },
            }
            i += 1;
        }
        infos
    }
}

} // verus!
