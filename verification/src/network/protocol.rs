//! The messages of the peer-to-peer protocol.

use crate::chain::block::{unix_time_now, Block, BlockHeader, BlockHeaderView, BlockView};
use crate::chain::blockchain::Blockchain;
use crate::chain::transaction::Transaction;
use crate::consensus::validation::{first_where, lemma_first_where_is, lemma_first_where_none};
use crate::crypto::hash::{Hash256, Hashable};
use crate::crypto::keys::random_bytes32;
use vstd::bytes::*;
use vstd::prelude::*;
use vstd::string::StringExecFns;

verus! {

/// How far a message's time may lie after the reference time, in seconds.
pub const MAX_MESSAGE_FUTURE_SECONDS: u64 = 7200;

/// What an inventory item names.
#[derive(Clone, Copy, Debug, PartialEq, Eq, Structural)]
pub enum InventoryType {
    Transaction,
    Block,
    FilteredBlock,
}

/// The announcement of a block or transaction by its hash.
#[derive(Clone, Copy, Debug)]
pub struct InventoryItem {
    pub item_type: InventoryType,
    pub hash: Hash256,
}

/// The address of a peer.
#[derive(Debug)]
pub struct PeerAddress {
    pub timestamp: u64,
    pub services: u64,
    pub ip: String,
    pub port: u16,
}

/// What a message carries.
#[derive(Debug)]
pub enum MessageType {
    GetBlocks { start_height: u64, end_height: u64, locator_hashes: Vec<Hash256> },
    Block(Block),
    GetBlockHeaders { start_height: u64, count: u32 },
    BlockHeaders(Vec<BlockHeader>),
    Transaction(Transaction),
    GetMempool,
    Mempool(Vec<Transaction>),
    Version {
        version: u32,
        services: u64,
        timestamp: u64,
        addr_recv: String,
        addr_from: String,
        nonce: u64,
        user_agent: String,
        start_height: u64,
    },
    VerAck,
    Ping(u64),
    Pong(u64),
    GetAddr,
    Addr(Vec<PeerAddress>),
    Inv(Vec<InventoryItem>),
    GetData(Vec<InventoryItem>),
    NotFound(Vec<InventoryItem>),
    Reject { message: String, code: u8, reason: String },
}

/// A message with the time it was made and the protocol version.
#[derive(Debug)]
pub struct Message {
    pub message_type: MessageType,
    pub timestamp: u64,
    pub version: u32,
}

/// Why a message is refused.
#[derive(Clone, Copy, Debug, PartialEq, Eq, Structural)]
pub enum MessageDefect {
    /// The version is above the supported one.
    UnsupportedVersion,
    /// The time lies more than two hours after the reference time.
    TimestampTooFarInFuture,
    /// A block without transactions.
    EmptyBlock,
    /// A transaction without inputs that is no coinbase.
    NoInputs,
    /// A transaction without outputs.
    NoOutputs,
}

/// The name of what a message carries.
pub open spec fn type_name_of(message_type: MessageType) -> Seq<char> {
    match message_type {
        MessageType::GetBlocks { .. } => "getblocks"@,
        MessageType::Block(_) => "block"@,
        MessageType::GetBlockHeaders { .. } => "getheaders"@,
        MessageType::BlockHeaders(_) => "headers"@,
        MessageType::Transaction(_) => "tx"@,
        MessageType::GetMempool => "getmempool"@,
        MessageType::Mempool(_) => "mempool"@,
        MessageType::Version { .. } => "version"@,
        MessageType::VerAck => "verack"@,
        MessageType::Ping(_) => "ping"@,
        MessageType::Pong(_) => "pong"@,
        MessageType::GetAddr => "getaddr"@,
        MessageType::Addr(_) => "addr"@,
        MessageType::Inv(_) => "inv"@,
        MessageType::GetData(_) => "getdata"@,
        MessageType::NotFound(_) => "notfound"@,
        MessageType::Reject { .. } => "reject"@,
    }
}

/// The first reason for which a message is refused at the reference time
/// `now` by a node that supports versions up to `supported`, if any.
pub open spec fn message_defect(message: Message, supported: u32, now: u64) -> Option<
    MessageDefect,
> {
    if message.version > supported {
        Some(MessageDefect::UnsupportedVersion)
    } else if message.timestamp > now + MAX_MESSAGE_FUTURE_SECONDS {
        Some(MessageDefect::TimestampTooFarInFuture)
    } else {
        match message.message_type {
            MessageType::Block(block) => if block@.transactions.len() == 0 {
                Some(MessageDefect::EmptyBlock)
            } else {
                None
            },
            MessageType::Transaction(tx) => if tx@.inputs.len() == 0 {
                Some(MessageDefect::NoInputs)
            } else if tx@.outputs.len() == 0 {
                Some(MessageDefect::NoOutputs)
            } else {
                None
            },
            _ => None,
        }
    }
}

impl Message {
    /// A message of version 1, stamped with the clock's time.
    pub fn new(message_type: MessageType) -> (message: Self)
        ensures
            message.message_type == message_type,
            message.version == 1,
    {
        let timestamp = unix_time_now();
        Self::with_timestamp(message_type, timestamp)
    }

    /// A message of version 1 with the given time.
    pub fn with_timestamp(message_type: MessageType, timestamp: u64) -> (message: Self)
        ensures
            message.message_type == message_type,
            message.timestamp == timestamp,
            message.version == 1,
    {
        Message { message_type, timestamp, version: 1 }
    }

    /// The name of what the message carries.
    pub fn message_type_name(&self) -> (name: &'static str)
        ensures
            name@ == type_name_of(self.message_type),
    {
        match &self.message_type {
            MessageType::GetBlocks { .. } => "getblocks",
            MessageType::Block(_) => "block",
            MessageType::GetBlockHeaders { .. } => "getheaders",
            MessageType::BlockHeaders(_) => "headers",
            MessageType::Transaction(_) => "tx",
            MessageType::GetMempool => "getmempool",
            MessageType::Mempool(_) => "mempool",
            MessageType::Version { .. } => "version",
            MessageType::VerAck => "verack",
            MessageType::Ping(_) => "ping",
            MessageType::Pong(_) => "pong",
            MessageType::GetAddr => "getaddr",
            MessageType::Addr(_) => "addr",
            MessageType::Inv(_) => "inv",
            MessageType::GetData(_) => "getdata",
            MessageType::NotFound(_) => "notfound",
            MessageType::Reject { .. } => "reject",
        }
    }

    /// Accepts the message at the reference time `now` for a node that
    /// supports versions up to `supported`, or names the first reason to
    /// refuse it.
    pub fn validate(&self, supported: u32, now: u64) -> (out: Result<(), MessageDefect>)
        ensures
            out is Ok <==> message_defect(*self, supported, now) is None,
            out matches Err(defect) ==> Some(defect) == message_defect(*self, supported, now),
    {
        if self.version > supported {
            return Err(MessageDefect::UnsupportedVersion);
        }
        if self.timestamp as u128 > now as u128 + MAX_MESSAGE_FUTURE_SECONDS as u128 {
            return Err(MessageDefect::TimestampTooFarInFuture);
        }
        match &self.message_type {
            MessageType::Block(block) => {
                if block.transactions.len() == 0 {
                    return Err(MessageDefect::EmptyBlock);
                }
            },
            MessageType::Transaction(tx) => {
                if tx.inputs.len() == 0 {
                    return Err(MessageDefect::NoInputs);
                }
                if tx.outputs.len() == 0 {
                    return Err(MessageDefect::NoOutputs);
                }
            },
            _ => {},
        }
        Ok(())
    }
}

impl InventoryItem {
    /// The announcement of a block.
    pub fn new_block(hash: Hash256) -> (item: Self)
        ensures
            item.item_type == InventoryType::Block,
            item.hash == hash,
    {
        InventoryItem { item_type: InventoryType::Block, hash }
    }

    /// The announcement of a transaction.
    pub fn new_transaction(hash: Hash256) -> (item: Self)
        ensures
            item.item_type == InventoryType::Transaction,
            item.hash == hash,
    {
        InventoryItem { item_type: InventoryType::Transaction, hash }
    }
}

impl PeerAddress {
    /// The address of a peer without services, stamped with the clock's
    /// time.
    pub fn new(ip: String, port: u16) -> (address: Self)
        ensures
            address.ip == ip,
            address.port == port,
            address.services == 0,
    {
        PeerAddress { timestamp: unix_time_now(), services: 0, ip, port }
    }
}

/// The protocol version that a handler speaks.
pub const PROTOCOL_VERSION: u32 = 1;

/// The most blocks past the first that one request for blocks is answered
/// with.
pub const MAX_BLOCKS_PER_REQUEST: u64 = 500;

/// The most headers that one request for headers is answered with.
pub const MAX_HEADERS_PER_REQUEST: u32 = 2000;

/// The code with which a block is rejected.
pub const REJECT_INVALID_BLOCK: u8 = 0x10;

/// The code with which a transaction is rejected.
pub const REJECT_INVALID_TRANSACTION: u8 = 0x01;

/// What the node that got a message is to do.
#[derive(Debug)]
pub enum Handled {
    /// Nothing.
    Nothing,
    /// Send the message back.
    Reply(Message),
    /// Validate the block and add it to the chain, then answer with
    /// [`ProtocolHandler::block_reply`].
    Submit(Block),
}

/// The inventory items as kinds and hashes.
pub open spec fn items_view(items: Seq<InventoryItem>) -> Seq<(InventoryType, Seq<u8>)> {
    items.map_values(|item: InventoryItem| (item.item_type, item.hash@))
}

/// The headers as values.
pub open spec fn headers_view(headers: Seq<BlockHeader>) -> Seq<BlockHeaderView> {
    headers.map_values(|header: BlockHeader| header@)
}

/// Whether the chain holds a block with the hash.
pub open spec fn block_known(chain: Seq<BlockView>, hash: Seq<u8>) -> bool {
    exists|i: int| 0 <= i < chain.len() && (#[trigger] chain[i]).header.hash() == hash
}

/// The number of blocks that a request for the heights from `start` to
/// `end` is answered with: those the chain has, up to 500 past the first.
pub open spec fn announced_count(chain_len: int, start: u64, end: u64) -> int {
    let last = if end < start + MAX_BLOCKS_PER_REQUEST {
        end as int
    } else {
        start + MAX_BLOCKS_PER_REQUEST
    };
    let last = if last < chain_len - 1 {
        last
    } else {
        chain_len - 1
    };
    if last < start {
        0
    } else {
        last - start + 1
    }
}

/// The announcements that answer a request for the blocks at the heights
/// from `start` to `end`.
pub open spec fn announced_blocks(chain: Seq<BlockView>, start: u64, end: u64) -> Seq<
    (InventoryType, Seq<u8>),
> {
    Seq::new(
        announced_count(chain.len() as int, start, end) as nat,
        |i: int| (InventoryType::Block, chain[start + i].header.hash()),
    )
}

/// The number of headers that a request for `count` headers from `start`
/// is answered with: those the chain has, up to 2000.
pub open spec fn sent_header_count(chain_len: int, start: u64, count: u32) -> int {
    let most = if count < MAX_HEADERS_PER_REQUEST {
        count as int
    } else {
        MAX_HEADERS_PER_REQUEST as int
    };
    if chain_len <= start {
        0
    } else if chain_len - start < most {
        chain_len - start
    } else {
        most
    }
}

/// The headers that answer a request for `count` headers from `start`.
pub open spec fn sent_headers(chain: Seq<BlockView>, start: u64, count: u32) -> Seq<
    BlockHeaderView,
> {
    Seq::new(
        sent_header_count(chain.len() as int, start, count) as nat,
        |i: int| chain[start + i].header,
    )
}

/// Whether an announced item is asked for: a block that the chain does not
/// hold, and every transaction.
pub open spec fn is_wanted(chain: Seq<BlockView>, item: (InventoryType, Seq<u8>)) -> bool {
    match item.0 {
        InventoryType::Block => !block_known(chain, item.1),
        InventoryType::Transaction => true,
        InventoryType::FilteredBlock => false,
    }
}

/// The announced items that are asked for, in their order.
pub open spec fn wanted_items(chain: Seq<BlockView>, items: Seq<(InventoryType, Seq<u8>)>) -> Seq<
    (InventoryType, Seq<u8>),
>
    decreases items.len(),
{
    if items.len() == 0 {
        Seq::empty()
    } else if is_wanted(chain, items.last()) {
        wanted_items(chain, items.drop_last()).push(items.last())
    } else {
        wanted_items(chain, items.drop_last())
    }
}

/// Whether the item at an index is a block that the chain holds.
pub open spec fn can_serve(chain: Seq<BlockView>, items: Seq<(InventoryType, Seq<u8>)>) -> spec_fn(
    int,
) -> bool {
    |i: int| items[i].0 == InventoryType::Block && block_known(chain, items[i].1)
}

/// Whether a message is an answer made at `now`.
pub open spec fn is_answer(message: Message, now: u64) -> bool {
    message.timestamp == now && message.version == PROTOCOL_VERSION
}

/// Answers the messages of peers from what a chain holds.
#[derive(Debug)]
pub struct ProtocolHandler {
    /// The highest message version that the handler takes.
    pub version: u32,
    /// The name under which the handler introduces itself.
    pub user_agent: String,
}

impl ProtocolHandler {
    /// A handler of protocol version 1 that calls itself `QTC/1.0.0`.
    pub fn new() -> (handler: Self)
        ensures
            handler.version == PROTOCOL_VERSION,
            handler.user_agent@ == "QTC/1.0.0"@,
    {
        ProtocolHandler { version: PROTOCOL_VERSION, user_agent: String::from_str("QTC/1.0.0") }
    }

    /// The answer to a request for the blocks at the heights from
    /// `start_height` to `end_height`: the announcements of those the
    /// chain has, up to 500 past the first; nothing where there is none.
    pub fn handle_get_blocks(chain: &Blockchain, start_height: u64, end_height: u64) -> (reply:
        Option<MessageType>)
        ensures
            reply is Some <==> announced_count(chain.chain().len() as int, start_height, end_height)
                > 0,
            reply matches Some(payload) ==> payload matches MessageType::Inv(items) && items_view(
                items@,
            ) == announced_blocks(chain.chain(), start_height, end_height),
    {
        let ghost goal = announced_blocks(chain.chain(), start_height, end_height);
        let last = if end_height - start_height.min(end_height) < MAX_BLOCKS_PER_REQUEST {
            end_height
        } else {
            start_height.saturating_add(MAX_BLOCKS_PER_REQUEST)
        };
        let mut items: Vec<InventoryItem> = Vec::new();
        let mut height = start_height;
        let mut done = false;
        while !done && height <= last
            invariant
                start_height <= height,
                goal == announced_blocks(chain.chain(), start_height, end_height),
                !done ==> items@.len() == height - start_height,
                !done ==> items@.len() <= goal.len(),
                done ==> items@.len() == goal.len(),
                forall|i: int|
                    0 <= i < items@.len() ==> (#[trigger] items@[i]).item_type
                        == InventoryType::Block && items@[i].hash@ == chain.chain()[start_height
                        + i].header.hash(),
                last == (if end_height < start_height + MAX_BLOCKS_PER_REQUEST {
                    end_height as int
                } else if start_height + MAX_BLOCKS_PER_REQUEST <= u64::MAX {
                    start_height + MAX_BLOCKS_PER_REQUEST
                } else {
                    u64::MAX as int
                }),
                !done ==> height <= last || height == start_height,
            decreases
                    (if done {
                        0int
                    } else {
                        last - height + 1
                    }),
        {
            match chain.get_block_by_height(height) {
                Ok(Some(block)) => {
                    items.push(InventoryItem { item_type: InventoryType::Block, hash: block.hash() });
                    if height == last {
                        done = true;
                    } else {
                        height += 1;
                    }
                },
                _ => {
                    done = true;
                },
            }
        }
        assert(items@.len() == goal.len());
        assert(items_view(items@) =~= goal);
        if items.len() == 0 {
            None
        } else {
            Some(MessageType::Inv(items))
        }
    }
    /// The answer to a request for `count` headers from `start_height`:
    /// the headers the chain has from there, up to 2000; nothing where
    /// there is none.
    pub fn handle_get_block_headers(chain: &Blockchain, start_height: u64, count: u32) -> (reply:
        Option<MessageType>)
        ensures
            reply is Some <==> sent_header_count(chain.chain().len() as int, start_height, count)
                > 0,
            reply matches Some(payload) ==> payload matches MessageType::BlockHeaders(headers)
                && headers_view(headers@) == sent_headers(chain.chain(), start_height, count),
    {
        let ghost goal = sent_headers(chain.chain(), start_height, count);
        let most = if count < MAX_HEADERS_PER_REQUEST {
            count
        } else {
            MAX_HEADERS_PER_REQUEST
        };
        let mut headers: Vec<BlockHeader> = Vec::new();
        let mut i: u32 = 0;
        let mut done = false;
        while !done && i < most
            invariant
                i <= most <= MAX_HEADERS_PER_REQUEST,
                most == (if count < MAX_HEADERS_PER_REQUEST {
                    count
                } else {
                    MAX_HEADERS_PER_REQUEST
                }),
                goal == sent_headers(chain.chain(), start_height, count),
                headers@.len() == i,
                i <= goal.len(),
                done ==> i == goal.len(),
                forall|k: int|
                    0 <= k < i ==> (#[trigger] headers@[k])@ == chain.chain()[start_height
                        + k].header,
            decreases
                    (if done {
                        0int
                    } else {
                        most - i
                    }),
        {
            proof {
                chain.lemma_chain_fits();
            }
            let found = match start_height.checked_add(i as u64) {
                None => None,
                Some(height) => match chain.get_block_by_height(height) {
                    Ok(found) => found,
                    Err(_) => None,
                },
            };
            match found {
                Some(block) => {
                    headers.push(block.header);
                    i += 1;
                },
                None => {
                    done = true;
                },
            }
        }
        assert(headers@.len() == goal.len());
        assert(headers_view(headers@) =~= goal);
        if headers.len() == 0 {
            None
        } else {
            Some(MessageType::BlockHeaders(headers))
        }
    }

    /// The answer to a transaction: nothing where the chain accepts it, a
    /// rejection where it does not.
    pub fn handle_transaction(chain: &Blockchain, tx: &Transaction) -> (reply: Option<MessageType>)
        requires
            chain.well_formed(),
        ensures
            reply is None <==> chain.limits().tx_defect(
                tx@,
                chain.utxos(),
                chain.spec_height() as u64,
            ) is None,
            reply matches Some(payload) ==> payload matches MessageType::Reject {
                message,
                code,
                reason,
            } && message@ == "tx"@ && code == REJECT_INVALID_TRANSACTION && reason@
                == "Transaction validation failed"@,
    {
        match chain.is_valid_transaction(tx) {
            Ok(_) => None,
            Err(_) => Some(
                MessageType::Reject {
                    message: String::from_str("tx"),
                    code: REJECT_INVALID_TRANSACTION,
                    reason: String::from_str("Transaction validation failed"),
                },
            ),
        }
    }

    /// The answer to a block that was handed to the chain: nothing where
    /// the chain took it, a rejection with the reason where it did not.
    pub fn block_reply(refused: Option<String>) -> (reply: Option<MessageType>)
        ensures
            reply is None <==> refused is None,
            reply matches Some(payload) ==> payload matches MessageType::Reject {
                message,
                code,
                reason,
            } && message@ == "block"@ && code == REJECT_INVALID_BLOCK && Some(reason) == refused,
    {
        match refused {
            None => None,
            Some(reason) => Some(
                MessageType::Reject {
                    message: String::from_str("block"),
                    code: REJECT_INVALID_BLOCK,
                    reason,
                },
            ),
        }
    }

    /// The answer to announcements: a request for the blocks among them
    /// that the chain does not hold and for all transactions, in their
    /// order; nothing where nothing is asked for.
    pub fn handle_inv(chain: &Blockchain, items: &Vec<InventoryItem>) -> (reply: Option<
        MessageType,
    >)
        ensures
            reply is Some <==> wanted_items(chain.chain(), items_view(items@)).len() > 0,
            reply matches Some(payload) ==> payload matches MessageType::GetData(asked)
                && items_view(asked@) == wanted_items(chain.chain(), items_view(items@)),
    {
        let ghost all = items_view(items@);
        let mut asked: Vec<InventoryItem> = Vec::new();
        let mut i: usize = 0;
        assert(all.take(0) =~= Seq::<(InventoryType, Seq<u8>)>::empty());
        assert(items_view(asked@) =~= Seq::<(InventoryType, Seq<u8>)>::empty());
        while i < items.len()
            invariant
                i <= items@.len(),
                all == items_view(items@),
                items_view(asked@) == wanted_items(chain.chain(), all.take(i as int)),
            decreases items@.len() - i,
        {
            assert(all.take(i as int + 1).drop_last() =~= all.take(i as int));
            assert(all.take(i as int + 1).last() == all[i as int]);
            let item = items[i];
            let wanted = match item.item_type {
                InventoryType::Block => match chain.get_block(&item.hash) {
                    Ok(Some(_)) => false,
                    _ => true,
                },
                InventoryType::Transaction => true,
                InventoryType::FilteredBlock => false,
            };
            assert(wanted == is_wanted(chain.chain(), all[i as int]));
            if wanted {
                let ghost before = items_view(asked@);
                asked.push(item);
                assert(items_view(asked@) =~= before.push(all[i as int]));
            }
            i += 1;
        }
        assert(all.take(i as int) =~= all);
        if asked.len() == 0 {
            None
        } else {
            Some(MessageType::GetData(asked))
        }
    }

    /// The answer to a request for items: the first block among them that
    /// the chain holds; where it holds none, the news that all of them
    /// were not found; nothing for a request of nothing.
    pub fn handle_get_data(chain: &Blockchain, items: Vec<InventoryItem>) -> (reply: Option<
        MessageType,
    >)
        ensures
            match first_where(
                items@.len() as int,
                can_serve(chain.chain(), items_view(items@)),
            ) {
                Some(i) => reply matches Some(MessageType::Block(block)) && block@.header.hash()
                    == items@[i].hash@ && exists|k: int|
                    0 <= k < chain.chain().len() && #[trigger] chain.chain()[k] == block@,
                None => if items@.len() == 0 {
                    reply is None
                } else {
                    reply matches Some(MessageType::NotFound(missing)) && missing == items
                },
            },
    {
        let ghost all = items_view(items@);
        let ghost serves = can_serve(chain.chain(), all);
        let mut i: usize = 0;
        while i < items.len()
            invariant
                i <= items@.len(),
                all == items_view(items@),
                serves == can_serve(chain.chain(), all),
                forall|j: int| 0 <= j < i ==> !#[trigger] serves(j),
            decreases items@.len() - i,
        {
            let item = items[i];
            assert(all[i as int] == (item.item_type, item.hash@));
            match item.item_type {
                InventoryType::Block => match chain.get_block(&item.hash) {
                    Ok(Some(block)) => {
                        proof {
                            assert(serves(i as int));
                            lemma_first_where_is(items@.len() as int, serves, i as int);
                        }
                        return Some(MessageType::Block(block));
                    },
                    _ => {},
                },
                _ => {},
            }
            assert(!serves(i as int));
            i += 1;
        }
        proof {
            lemma_first_where_none(items@.len() as int, serves);
        }
        if items.len() == 0 {
            None
        } else {
            Some(MessageType::NotFound(items))
        }
    }

    /// What the node is to do with a message at the time `now`: hand a
    /// block on to the chain; answer a request from what the chain holds;
    /// answer a ping with its number, a version with an acknowledgement,
    /// and a request for the pool or for peers with an empty list; and
    /// nothing for the rest. Answers are of version 1 and carry `now`.
    pub fn handle_message(&self, chain: &Blockchain, message: Message, now: u64) -> (handled:
        Handled)
        requires
            chain.well_formed(),
        ensures
            handled matches Handled::Reply(answer) ==> is_answer(answer, now),
            match message.message_type {
                MessageType::Block(block) => handled == Handled::Submit(block),
                MessageType::GetBlocks { start_height, end_height, .. } => if announced_count(
                    chain.chain().len() as int,
                    start_height,
                    end_height,
                ) > 0 {
                    handled matches Handled::Reply(answer) && answer.message_type
                        matches MessageType::Inv(items) && items_view(items@) == announced_blocks(
                        chain.chain(),
                        start_height,
                        end_height,
                    )
                } else {
                    handled is Nothing
                },
                MessageType::GetBlockHeaders { start_height, count } => if sent_header_count(
                    chain.chain().len() as int,
                    start_height,
                    count,
                ) > 0 {
                    handled matches Handled::Reply(answer) && answer.message_type
                        matches MessageType::BlockHeaders(headers) && headers_view(headers@)
                        == sent_headers(chain.chain(), start_height, count)
                } else {
                    handled is Nothing
                },
                MessageType::Transaction(tx) => if chain.limits().tx_defect(
                    tx@,
                    chain.utxos(),
                    chain.spec_height() as u64,
                ) is None {
                    handled is Nothing
                } else {
                    handled matches Handled::Reply(answer) && answer.message_type
                        matches MessageType::Reject { message, code, reason } && message@ == "tx"@
                        && code == REJECT_INVALID_TRANSACTION && reason@
                        == "Transaction validation failed"@
                },
                MessageType::GetMempool => handled matches Handled::Reply(answer)
                    && answer.message_type matches MessageType::Mempool(pool) && pool@.len() == 0,
                MessageType::Version { .. } => handled matches Handled::Reply(answer)
                    && answer.message_type is VerAck,
                MessageType::Ping(nonce) => handled matches Handled::Reply(answer)
                    && answer.message_type == MessageType::Pong(nonce),
                MessageType::GetAddr => handled matches Handled::Reply(answer)
                    && answer.message_type matches MessageType::Addr(peers) && peers@.len() == 0,
                MessageType::Inv(items) => if wanted_items(chain.chain(), items_view(items@)).len()
                    > 0 {
                    handled matches Handled::Reply(answer) && answer.message_type
                        matches MessageType::GetData(asked) && items_view(asked@) == wanted_items(
                        chain.chain(),
                        items_view(items@),
                    )
                } else {
                    handled is Nothing
                },
                MessageType::GetData(items) => match first_where(
                    items@.len() as int,
                    can_serve(chain.chain(), items_view(items@)),
                ) {
                    Some(i) => handled matches Handled::Reply(answer) && answer.message_type
                        matches MessageType::Block(block) && block@.header.hash()
                        == items@[i].hash@ && exists|k: int|
                        0 <= k < chain.chain().len() && #[trigger] chain.chain()[k] == block@,
                    None => if items@.len() == 0 {
                        handled is Nothing
                    } else {
                        handled matches Handled::Reply(answer) && answer.message_type
                            == MessageType::NotFound(items)
                    },
                },
                _ => handled is Nothing,
            },
    {
        let payload = match message.message_type {
            MessageType::Block(block) => {
                return Handled::Submit(block);
            },
            MessageType::GetBlocks { start_height, end_height, locator_hashes: _ } => {
                Self::handle_get_blocks(chain, start_height, end_height)
            },
            MessageType::GetBlockHeaders { start_height, count } => {
                Self::handle_get_block_headers(chain, start_height, count)
            },
            MessageType::Transaction(tx) => Self::handle_transaction(chain, &tx),
            MessageType::GetMempool => Some(MessageType::Mempool(Vec::new())),
            MessageType::Version { .. } => Some(MessageType::VerAck),
            MessageType::Ping(nonce) => Some(MessageType::Pong(nonce)),
            MessageType::GetAddr => Some(MessageType::Addr(Vec::new())),
            MessageType::Inv(items) => Self::handle_inv(chain, &items),
            MessageType::GetData(items) => Self::handle_get_data(chain, items),
            _ => None,
        };
        match payload {
            None => Handled::Nothing,
            Some(message_type) => Handled::Reply(Message::with_timestamp(message_type, now)),
        }
    }

    /// The message with which the handler introduces itself to a peer at
    /// the time `now`: its version, no services, the peer's address, its
    /// own as `127.0.0.1:8333`, the nonce, its name and the height of the
    /// chain.
    pub fn version_message(&self, chain: &Blockchain, peer_addr: &str, now: u64, nonce: u64) -> (message:
        Message)
        requires
            chain.well_formed(),
        ensures
            is_answer(message, now),
            message.message_type matches MessageType::Version {
                version,
                services,
                timestamp,
                addr_recv,
                addr_from,
                nonce: sent,
                user_agent,
                start_height,
            } && version == self.version && services == 0 && timestamp == now && addr_recv@
                == peer_addr@ && addr_from@ == "127.0.0.1:8333"@ && sent == nonce && user_agent@
                == self.user_agent@ && start_height == chain.spec_height(),
    {
        Message::with_timestamp(
            MessageType::Version {
                version: self.version,
                services: 0,
                timestamp: now,
                addr_recv: String::from_str(peer_addr),
                addr_from: String::from_str("127.0.0.1:8333"),
                nonce,
                user_agent: self.user_agent.clone(),
                start_height: chain.height(),
            },
            now,
        )
    }

    /// The message with which the handler introduces itself to a peer,
    /// at the clock's time and with a nonce from the system's source of
    /// randomness.
    pub fn create_version_message(&self, chain: &Blockchain, peer_addr: &str) -> (message: Message)
        requires
            chain.well_formed(),
        ensures
            message.version == PROTOCOL_VERSION,
            message.message_type matches MessageType::Version {
                version,
                services,
                timestamp,
                addr_recv,
                addr_from,
                nonce,
                user_agent,
                start_height,
            } && version == self.version && services == 0 && timestamp == message.timestamp
                && addr_recv@ == peer_addr@ && addr_from@ == "127.0.0.1:8333"@ && user_agent@
                == self.user_agent@ && start_height == chain.spec_height(),
    {
        self.version_message(chain, peer_addr, unix_time_now(), random_nonce())
    }

    /// A ping with a nonce from the system's source of randomness, at the
    /// clock's time.
    pub fn create_ping_message() -> (message: Message)
        ensures
            message.version == PROTOCOL_VERSION,
            message.message_type is Ping,
    {
        Message::with_timestamp(MessageType::Ping(random_nonce()), unix_time_now())
    }

    /// Accepts a message at the clock's time, or names the first reason to
    /// refuse it.
    pub fn validate_message(&self, message: &Message) -> (out: Result<(), MessageDefect>)
        ensures
            exists|now: u64|
                match #[trigger] message_defect(*message, self.version, now) {
                    Some(defect) => out == Err::<(), MessageDefect>(defect),
                    None => out is Ok,
                },
    {
        let now = unix_time_now();
        let out = message.validate(self.version, now);
        assert(match message_defect(*message, self.version, now) {
            Some(defect) => out == Err::<(), MessageDefect>(defect),
            None => out is Ok,
        });
        out
    }
}

/// Sixty-four bits from the system's source of randomness.
pub fn random_nonce() -> (nonce: u64) {
    let drawn = random_bytes32();
    u64_from_le_bytes(vstd::slice::slice_subrange(drawn.as_slice(), 0, 8))
}

} // verus!
