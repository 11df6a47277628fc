use quantum_goldchain::chain::block::Block;
use quantum_goldchain::chain::blockchain::{Blockchain, ChainParams, GENESIS_TIMESTAMP};
use quantum_goldchain::chain::transaction::{OutPoint, Transaction};
use quantum_goldchain::crypto::hash::{Hash256, Hashable};
use quantum_goldchain::mining::miner::{build_template, mine_range};
use quantum_goldchain::mining::randomx::RandomXMiner;
use quantum_goldchain::network::protocol::{
    random_nonce, Handled, InventoryItem, InventoryType, Message, MessageDefect, MessageType,
    PeerAddress, ProtocolHandler,
};

#[test]
fn test_inventory_item_creation() {
    let hash = Hash256::hash(b"test");

    let block_inv = InventoryItem::new_block(hash);
    assert!(matches!(block_inv.item_type, InventoryType::Block));
    assert_eq!(block_inv.hash, hash);

    let tx_inv = InventoryItem::new_transaction(hash);
    assert!(matches!(tx_inv.item_type, InventoryType::Transaction));
    assert_eq!(tx_inv.hash, hash);
}

#[test]
fn message_names_and_versions() {
    let msg = Message::new(MessageType::Ping(12345));
    assert_eq!(msg.version, 1);
    assert_eq!(msg.message_type_name(), "ping");
    assert_eq!(Message::with_timestamp(MessageType::Pong(1), 5).message_type_name(), "pong");
    assert_eq!(Message::with_timestamp(MessageType::VerAck, 5).message_type_name(), "verack");
    assert_eq!(Message::with_timestamp(MessageType::GetMempool, 5).message_type_name(), "getmempool");
    assert_eq!(Message::with_timestamp(MessageType::GetAddr, 5).message_type_name(), "getaddr");
    assert_eq!(
        Message::with_timestamp(MessageType::Transaction(Transaction::new()), 5).message_type_name(),
        "tx"
    );
    assert_eq!(
        Message::with_timestamp(MessageType::GetBlockHeaders { start_height: 0, count: 1 }, 5)
            .message_type_name(),
        "getheaders"
    );
    assert_eq!(Message::with_timestamp(MessageType::Inv(vec![]), 5).message_type_name(), "inv");
    let peer = PeerAddress::new("127.0.0.1".to_string(), 8333);
    assert_eq!(peer.port, 8333);
    assert_eq!(peer.services, 0);
    assert_eq!(peer.ip, "127.0.0.1");
}

#[test]
fn messages_are_held_to_version_time_and_shape() {
    let ping = Message::with_timestamp(MessageType::Ping(1), 1000);
    assert_eq!(ping.validate(1, 1000), Ok(()));
    assert_eq!(ping.validate(0, 1000), Err(MessageDefect::UnsupportedVersion));
    let late = Message::with_timestamp(MessageType::Ping(1), 1000 + 7201);
    assert_eq!(late.validate(1, 1000), Err(MessageDefect::TimestampTooFarInFuture));
    let edge = Message::with_timestamp(MessageType::Ping(1), 1000 + 7200);
    assert_eq!(edge.validate(1, 1000), Ok(()));
    let empty_tx = Message::with_timestamp(MessageType::Transaction(Transaction::new()), 0);
    assert_eq!(empty_tx.validate(1, 0), Err(MessageDefect::NoInputs));
    let coinbase = Transaction::new_coinbase("a".to_string(), 1, "xx".to_string());
    let mut no_outputs = coinbase.clone();
    no_outputs.outputs.clear();
    assert_eq!(
        Message::with_timestamp(MessageType::Transaction(no_outputs), 0).validate(1, 0),
        Err(MessageDefect::NoOutputs)
    );
    assert_eq!(
        Message::with_timestamp(MessageType::Transaction(coinbase.clone()), 0).validate(1, 0),
        Ok(())
    );
    let empty_block = Block::with_timestamp(Hash256::zero(), vec![], 6, 1, 0);
    assert_eq!(
        Message::with_timestamp(MessageType::Block(empty_block), 0).validate(1, 0),
        Err(MessageDefect::EmptyBlock)
    );
    let block = Block::with_timestamp(Hash256::zero(), vec![coinbase], 6, 1, 0);
    assert_eq!(Message::with_timestamp(MessageType::Block(block), 0).validate(1, 0), Ok(()));
}

fn dev_chain(blocks: u64) -> Blockchain {
    let mut chain = Blockchain::with_params(&ChainParams::development());
    let hasher = RandomXMiner::new(chain.pow_seed().as_bytes(), Some(1), false).unwrap();
    for _ in 0..blocks {
        let time = GENESIS_TIMESTAMP + (chain.height() + 1) * 450;
        let template = build_template(&chain, "miner", format!("block at {}", time), time).unwrap();
        let block = Block::with_timestamp(
            template.header.previous_hash,
            template.transactions.clone(),
            template.header.difficulty,
            template.header.height,
            template.header.timestamp,
        );
        let mined = mine_range(block, &hasher, 0, 10_000_000).expect("a nonce within the range");
        assert_eq!(chain.add_block_at(mined.block, time), Ok(()));
    }
    chain
}

fn hash_at(chain: &Blockchain, height: u64) -> Hash256 {
    chain.get_block_by_height(height).unwrap().unwrap().hash()
}

fn reply(handled: Handled) -> Message {
    match handled {
        Handled::Reply(message) => message,
        other => panic!("no reply: {:?}", other),
    }
}

fn handle(chain: &Blockchain, message_type: MessageType) -> Handled {
    ProtocolHandler::new().handle_message(chain, Message::with_timestamp(message_type, 7), 1000)
}

#[test]
fn test_protocol_handler_creation() {
    let handler = ProtocolHandler::new();
    assert_eq!(handler.version, 1);
    assert_eq!(handler.user_agent, "QTC/1.0.0");
}

#[test]
fn handler_announces_the_blocks_it_has() {
    let chain = dev_chain(3);
    let answer = reply(handle(
        &chain,
        MessageType::GetBlocks { start_height: 1, end_height: 2, locator_hashes: vec![] },
    ));
    assert_eq!(answer.timestamp, 1000);
    assert_eq!(answer.version, 1);
    match answer.message_type {
        MessageType::Inv(items) => {
            assert_eq!(items.len(), 2);
            assert!(items.iter().all(|item| item.item_type == InventoryType::Block));
            assert_eq!(items[0].hash, hash_at(&chain, 1));
            assert_eq!(items[1].hash, hash_at(&chain, 2));
        }
        other => panic!("not an inventory: {:?}", other),
    }
    // Past the tip the answer ends with the tip.
    match ProtocolHandler::handle_get_blocks(&chain, 2, u64::MAX) {
        Some(MessageType::Inv(items)) => {
            assert_eq!(items.len(), 2);
            assert_eq!(items[1].hash, chain.tip());
        }
        other => panic!("not an inventory: {:?}", other),
    }
    assert!(ProtocolHandler::handle_get_blocks(&chain, 4, 9).is_none());
    assert!(ProtocolHandler::handle_get_blocks(&chain, 2, 1).is_none());
    assert!(ProtocolHandler::handle_get_blocks(&chain, u64::MAX, u64::MAX).is_none());
    assert!(matches!(
        handle(
            &chain,
            MessageType::GetBlocks { start_height: 9, end_height: 9, locator_hashes: vec![] }
        ),
        Handled::Nothing
    ));
}

#[test]
fn handler_sends_the_headers_it_has() {
    let chain = dev_chain(3);
    match ProtocolHandler::handle_get_block_headers(&chain, 1, 2) {
        Some(MessageType::BlockHeaders(headers)) => {
            assert_eq!(headers.len(), 2);
            assert_eq!(headers[0].height, 1);
            assert_eq!(headers[1].hash(), hash_at(&chain, 2));
        }
        other => panic!("no headers: {:?}", other),
    }
    match ProtocolHandler::handle_get_block_headers(&chain, 0, 5000) {
        Some(MessageType::BlockHeaders(headers)) => assert_eq!(headers.len(), 4),
        other => panic!("no headers: {:?}", other),
    }
    assert!(ProtocolHandler::handle_get_block_headers(&chain, 0, 0).is_none());
    assert!(ProtocolHandler::handle_get_block_headers(&chain, 4, 10).is_none());
    assert!(ProtocolHandler::handle_get_block_headers(&chain, u64::MAX, 10).is_none());
    let answer = reply(handle(&chain, MessageType::GetBlockHeaders { start_height: 3, count: 1 }));
    assert!(matches!(answer.message_type, MessageType::BlockHeaders(h) if h.len() == 1));
}

#[test]
fn handler_answers_the_small_messages() {
    let chain = dev_chain(0);
    assert!(matches!(reply(handle(&chain, MessageType::Ping(77))).message_type, MessageType::Pong(77)));
    assert!(matches!(handle(&chain, MessageType::Pong(77)), Handled::Nothing));
    assert!(matches!(handle(&chain, MessageType::VerAck), Handled::Nothing));
    assert!(matches!(handle(&chain, MessageType::Mempool(vec![])), Handled::Nothing));
    assert!(matches!(handle(&chain, MessageType::NotFound(vec![])), Handled::Nothing));
    assert!(matches!(
        reply(handle(&chain, MessageType::GetMempool)).message_type,
        MessageType::Mempool(pool) if pool.is_empty()
    ));
    assert!(matches!(
        reply(handle(&chain, MessageType::GetAddr)).message_type,
        MessageType::Addr(peers) if peers.is_empty()
    ));
    let version = ProtocolHandler::new().version_message(&chain, "10.0.0.9:8333", 55, 42);
    assert!(matches!(reply(handle(&chain, version.message_type)).message_type, MessageType::VerAck));
}

#[test]
fn handler_hands_blocks_on_and_rejects_bad_transactions() {
    let chain = dev_chain(1);
    let block = chain.get_block_by_height(1).unwrap().unwrap();
    match handle(&chain, MessageType::Block(block.clone())) {
        Handled::Submit(handed) => assert_eq!(handed.hash(), block.hash()),
        other => panic!("not handed on: {:?}", other),
    }
    assert!(ProtocolHandler::block_reply(None).is_none());
    match ProtocolHandler::block_reply(Some("bad proof of work".to_string())) {
        Some(MessageType::Reject { message, code, reason }) => {
            assert_eq!(message, "block");
            assert_eq!(code, 0x10);
            assert_eq!(reason, "bad proof of work");
        }
        other => panic!("no rejection: {:?}", other),
    }

    // A transaction that spends nothing the chain knows.
    let mut tx = Transaction::new();
    tx.add_input(OutPoint::new(Hash256::hash(b"nowhere"), 0), vec![]);
    tx.add_output(5_000, "payee");
    match reply(handle(&chain, MessageType::Transaction(tx))).message_type {
        MessageType::Reject { message, code, reason } => {
            assert_eq!(message, "tx");
            assert_eq!(code, 0x01);
            assert_eq!(reason, "Transaction validation failed");
        }
        other => panic!("no rejection: {:?}", other),
    }
}

#[test]
fn handler_accepts_a_spendable_transaction() {
    let chain = dev_chain(101);
    let first = chain.get_block_by_height(1).unwrap().unwrap();
    let mut tx = Transaction::new();
    tx.add_input(OutPoint::new(first.transactions[0].hash(), 0), vec![0x51]);
    tx.add_output(2_710_000_000 - 2_000, "payee");
    assert!(ProtocolHandler::handle_transaction(&chain, &tx).is_none());
    assert!(matches!(handle(&chain, MessageType::Transaction(tx)), Handled::Nothing));
}

#[test]
fn handler_asks_for_what_it_lacks() {
    let chain = dev_chain(2);
    let unknown = Hash256::hash(b"unknown block");
    let items = vec![
        InventoryItem::new_block(hash_at(&chain, 1)),
        InventoryItem::new_block(unknown),
        InventoryItem { item_type: InventoryType::FilteredBlock, hash: unknown },
        InventoryItem::new_transaction(hash_at(&chain, 2)),
    ];
    match ProtocolHandler::handle_inv(&chain, &items) {
        Some(MessageType::GetData(asked)) => {
            assert_eq!(asked.len(), 2);
            assert_eq!((asked[0].item_type, asked[0].hash), (InventoryType::Block, unknown));
            assert_eq!(asked[1].item_type, InventoryType::Transaction);
            assert_eq!(asked[1].hash, hash_at(&chain, 2));
        }
        other => panic!("nothing asked: {:?}", other),
    }
    let known = vec![InventoryItem::new_block(chain.tip())];
    assert!(ProtocolHandler::handle_inv(&chain, &known).is_none());
    assert!(ProtocolHandler::handle_inv(&chain, &vec![]).is_none());
    assert!(matches!(handle(&chain, MessageType::Inv(known)), Handled::Nothing));
    assert!(matches!(
        reply(handle(&chain, MessageType::Inv(items))).message_type,
        MessageType::GetData(asked) if asked.len() == 2
    ));
}

#[test]
fn handler_serves_the_first_block_it_has() {
    let chain = dev_chain(2);
    let unknown = Hash256::hash(b"unknown block");
    let items = vec![
        InventoryItem::new_transaction(hash_at(&chain, 1)),
        InventoryItem::new_block(unknown),
        InventoryItem::new_block(hash_at(&chain, 2)),
        InventoryItem::new_block(hash_at(&chain, 1)),
    ];
    match ProtocolHandler::handle_get_data(&chain, items.clone()) {
        Some(MessageType::Block(block)) => assert_eq!(block.hash(), hash_at(&chain, 2)),
        other => panic!("no block: {:?}", other),
    }
    match ProtocolHandler::handle_get_data(&chain, items[..2].to_vec()) {
        Some(MessageType::NotFound(missing)) => {
            assert_eq!(missing.len(), 2);
            assert_eq!(missing[0].item_type, InventoryType::Transaction);
            assert_eq!(missing[1].hash, unknown);
        }
        other => panic!("not the missing: {:?}", other),
    }
    assert!(ProtocolHandler::handle_get_data(&chain, vec![]).is_none());
    assert!(matches!(handle(&chain, MessageType::GetData(vec![])), Handled::Nothing));
    assert!(matches!(
        reply(handle(&chain, MessageType::GetData(items))).message_type,
        MessageType::Block(_)
    ));
}

#[test]
fn handler_introduces_itself() {
    let chain = dev_chain(2);
    let handler = ProtocolHandler::new();
    let message = handler.version_message(&chain, "10.0.0.9:8333", 55, 42);
    assert_eq!(message.timestamp, 55);
    assert_eq!(message.version, 1);
    match message.message_type {
        MessageType::Version {
            version,
            services,
            timestamp,
            addr_recv,
            addr_from,
            nonce,
            user_agent,
            start_height,
        } => {
            assert_eq!(version, 1);
            assert_eq!(services, 0);
            assert_eq!(timestamp, 55);
            assert_eq!(addr_recv, "10.0.0.9:8333");
            assert_eq!(addr_from, "127.0.0.1:8333");
            assert_eq!(nonce, 42);
            assert_eq!(user_agent, "QTC/1.0.0");
            assert_eq!(start_height, 2);
        }
        other => panic!("no version: {:?}", other),
    }
    let fresh = handler.create_version_message(&chain, "peer");
    assert_eq!(fresh.message_type_name(), "version");
    assert!(matches!(
        fresh.message_type,
        MessageType::Version { timestamp, start_height: 2, .. } if timestamp == fresh.timestamp
    ));
    let ping = ProtocolHandler::create_ping_message();
    assert_eq!(ping.version, 1);
    assert_eq!(ping.message_type_name(), "ping");
    // Two nonces from the system are not the same.
    assert_ne!(random_nonce(), random_nonce());

    assert_eq!(handler.validate_message(&ping), Ok(()));
    let mut later = Message::with_timestamp(MessageType::VerAck, u64::MAX);
    assert_eq!(handler.validate_message(&later), Err(MessageDefect::TimestampTooFarInFuture));
    later.version = 2;
    assert_eq!(handler.validate_message(&later), Err(MessageDefect::UnsupportedVersion));
}
