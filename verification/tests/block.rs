use quantum_goldchain::chain::block::{Block, BlockHeader};
use quantum_goldchain::chain::transaction::Transaction;
use quantum_goldchain::crypto::hash::{Hash256, Hashable};

fn coinbase(address: &str, value: u64, message: &str) -> Transaction {
    Transaction::new_coinbase(address.to_string(), value, message.to_string())
}

#[test]
fn test_block_creation() {
    let transactions = vec![Transaction::new_coinbase(
        "qtc1test".to_string(),
        2710000000,
        "Test coinbase".to_string(),
    )];

    let block = Block::new(Hash256::zero(), transactions, 4, 0);

    assert_eq!(block.header.height, 0);
    assert_eq!(block.header.difficulty, 4);
    assert_eq!(block.header.previous_hash, Hash256::zero());
    assert_eq!(block.transactions.len(), 1);
}

#[test]
fn test_merkle_root_calculation() {
    let transactions = vec![
        Transaction::new_coinbase("addr1".to_string(), 1000, "test".to_string()),
        Transaction::new_coinbase("addr2".to_string(), 1000, "test2".to_string()),
    ];

    let root = Block::calculate_merkle_root(&transactions);
    assert_ne!(root, Hash256::zero());
}

#[test]
fn merkle_root_of_none_one_two_and_three() {
    let t1 = coinbase("addr1", 1000, "test");
    let t2 = coinbase("addr2", 1000, "test2");
    let t3 = coinbase("addr3", 7, "third");
    assert_eq!(Block::calculate_merkle_root(&[]), Hash256::zero());
    assert_eq!(
        Block::calculate_merkle_root(&[t1.clone()]).to_hex(),
        "65d88f24aaf9845221020e9a8e5c0b63fcc76ae215411107c4dacd80a7b7449f"
    );
    assert_eq!(Block::calculate_merkle_root(&[t1.clone()]), t1.hash());
    assert_eq!(
        Block::calculate_merkle_root(&[t1.clone(), t2.clone()]).to_hex(),
        "4d8df68a1e0048fa131440aed496a6ed89efd77c4d2ebe95bbf42d260aa718ee"
    );
    assert_eq!(
        Block::calculate_merkle_root(&[t1.clone(), t2.clone(), t3.clone()]).to_hex(),
        "57b2ed79e4565e5a219db4b851571d9526a81ecff48eaa0ff46b5b9b1ff11abd"
    );
}

#[test]
fn merkle_root_is_the_same_each_time_and_follows_the_order() {
    let t1 = coinbase("addr1", 1000, "test");
    let t2 = coinbase("addr2", 1000, "test2");
    let forward = vec![t1.clone(), t2.clone()];
    let backward = vec![t2.clone(), t1.clone()];
    assert_eq!(Block::calculate_merkle_root(&forward), Block::calculate_merkle_root(&forward));
    assert_ne!(Block::calculate_merkle_root(&forward), Block::calculate_merkle_root(&backward));
    // A single transaction has no other order.
    assert_eq!(
        Block::calculate_merkle_root(&[t1.clone()]),
        Block::calculate_merkle_root(&[t1.clone()])
    );
}

#[test]
fn header_hash_is_sha256_of_the_six_fields() {
    let header = BlockHeader {
        previous_hash: Hash256::new([1u8; 32]),
        merkle_root: Hash256::new([2u8; 32]),
        timestamp: 3,
        difficulty: 4,
        nonce: 5,
        height: 6,
    };
    let bytes = header.encode();
    assert_eq!(bytes.len(), 92);
    assert_eq!(&bytes[0..32], &[1u8; 32]);
    assert_eq!(&bytes[32..64], &[2u8; 32]);
    assert_eq!(&bytes[64..72], &3u64.to_le_bytes());
    assert_eq!(&bytes[72..76], &4u32.to_le_bytes());
    assert_eq!(&bytes[76..84], &5u64.to_le_bytes());
    assert_eq!(&bytes[84..92], &6u64.to_le_bytes());
    assert_eq!(
        header.hash().to_hex(),
        "8a4833b5f4d4e577fddff2eb600934289dcd62b26b82a07dea6c7de77c1ec143"
    );
}

#[test]
fn block_hash_is_the_header_hash_and_nonce_wraps() {
    let mut block =
        Block::with_timestamp(Hash256::zero(), vec![coinbase("a", 1, "xx")], 6, 1, 99);
    assert_eq!(block.header.timestamp, 99);
    assert_eq!(block.header.nonce, 0);
    assert_eq!(block.header.merkle_root, block.transactions[0].hash());
    assert_eq!(block.hash(), block.header.hash());
    block.set_nonce(u64::MAX);
    assert_eq!(block.header.nonce, u64::MAX);
    block.increment_nonce();
    assert_eq!(block.header.nonce, 0);
    block.increment_nonce();
    assert_eq!(block.header.nonce, 1);
    assert_eq!(block.transaction_count(), 1);
    assert!(block.get_coinbase_transaction().is_some());
    assert!(block.contains_transaction(&block.transactions[0].hash()));
    assert!(!block.contains_transaction(&Hash256::zero()));
    assert_eq!(block.size(), block.encode().len());
    assert_eq!(block.size(), 92 + 4 + block.transactions[0].size());
}
