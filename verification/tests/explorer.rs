use quantum_goldchain::chain::block::Block;
use quantum_goldchain::chain::blockchain::{Blockchain, ChainParams, GENESIS_TIMESTAMP};
use quantum_goldchain::chain::explorer::{rank_balances, script_pays, transaction_involves};
use quantum_goldchain::chain::transaction::{OutPoint, Transaction};
use quantum_goldchain::chain::utxo::UtxoSet;
use quantum_goldchain::crypto::hash::Hashable;
use quantum_goldchain::mining::miner::{build_template, mine_range};
use quantum_goldchain::mining::randomx::RandomXMiner;

const REWARD: u64 = 2_710_000_000;

/// Adds a block stamped `time` whose reward goes to `address`.
fn add_block(chain: &mut Blockchain, address: &str, time: u64) {
    let hasher = RandomXMiner::new(chain.pow_seed().as_bytes(), Some(1), false).unwrap();
    let template = build_template(chain, address, format!("block at {}", time), time).unwrap();
    let block = Block::with_timestamp(
        template.header.previous_hash,
        template.transactions.clone(),
        template.header.difficulty,
        template.header.height,
        template.header.timestamp,
    );
    let mined = mine_range(block, &hasher, 0, 10_000_000).expect("a nonce within the range");
    assert_eq!(chain.add_block_at(mined.block, time), Ok(()));
}

fn dev_chain() -> Blockchain {
    Blockchain::with_params(&ChainParams::development())
}

fn named(pairs: &[(&str, u64)]) -> Vec<(String, u64)> {
    pairs.iter().map(|(name, value)| (name.to_string(), *value)).collect()
}

#[test]
fn balances_are_ranked_largest_first() {
    let balances = named(&[("a", 5), ("b", 9), ("c", 1), ("d", 9), ("e", 7)]);
    assert_eq!(
        rank_balances(balances.clone(), 3),
        named(&[("b", 9), ("d", 9), ("e", 7)])
    );
    assert_eq!(
        rank_balances(balances.clone(), 10),
        named(&[("b", 9), ("d", 9), ("e", 7), ("a", 5), ("c", 1)])
    );
    assert_eq!(rank_balances(balances.clone(), 5).len(), 5);
    assert!(rank_balances(balances, 0).is_empty());
    assert!(rank_balances(vec![], 4).is_empty());
}

#[test]
fn rich_list_ranks_the_owners() {
    let mut chain = dev_chain();
    let mut time = GENESIS_TIMESTAMP;
    for owner in ["alice", "bob", "bob", "carol", "bob", "carol"] {
        time += 450;
        add_block(&mut chain, owner, time);
    }
    let addresses: Vec<String> =
        ["nobody", "alice", "carol", "bob"].iter().map(|a| a.to_string()).collect();
    assert_eq!(
        chain.get_rich_list(&addresses, 10),
        Ok(named(&[("bob", 3 * REWARD), ("carol", 2 * REWARD), ("alice", REWARD)]))
    );
    assert_eq!(
        chain.get_rich_list(&addresses, 2),
        Ok(named(&[("bob", 3 * REWARD), ("carol", 2 * REWARD)]))
    );
    assert_eq!(chain.get_rich_list(&addresses, 0), Ok(vec![]));
    assert_eq!(chain.get_rich_list(&vec![], 5), Ok(vec![]));
    assert_eq!(chain.get_rich_list(&vec!["nobody".to_string()], 5), Ok(vec![]));
}

#[test]
fn block_time_is_averaged_over_the_last_ten_blocks() {
    let mut chain = dev_chain();
    // A single block: the default.
    assert_eq!(chain.average_block_time(), 450);
    let mut time = GENESIS_TIMESTAMP + 1000;
    add_block(&mut chain, "miner", time);
    assert_eq!(chain.average_block_time(), 1000);
    time += 301;
    add_block(&mut chain, "miner", time);
    // 1301 seconds over two steps, rounded down.
    assert_eq!(chain.average_block_time(), 650);
    for _ in 0..5 {
        time += 600;
        add_block(&mut chain, "miner", time);
    }
    // Eight blocks: 1000 + 301 + 5 * 600 over seven steps.
    assert_eq!(chain.average_block_time(), 4301 / 7);
    for _ in 0..9 {
        time += 500;
        add_block(&mut chain, "miner", time);
    }
    // The last ten blocks are 500 seconds apart.
    assert_eq!(chain.height(), 16);
    assert_eq!(chain.average_block_time(), 500);
    time += 1000;
    add_block(&mut chain, "miner", time);
    assert_eq!(chain.average_block_time(), (8 * 500 + 1000) / 9);
}

#[test]
fn transactions_of_an_address_newest_first() {
    let mut chain = dev_chain();
    let mut time = GENESIS_TIMESTAMP;
    for owner in ["alice", "bob", "bob", "carol", "bob"] {
        time += 450;
        add_block(&mut chain, owner, time);
    }
    let heights = |address: &str, limit: Option<usize>| -> Vec<u64> {
        chain
            .get_address_transactions(address, limit)
            .unwrap()
            .iter()
            .map(|(_, _, height)| *height)
            .collect()
    };
    assert_eq!(heights("bob", None), vec![5, 3, 2]);
    assert_eq!(heights("bob", Some(2)), vec![5, 3]);
    assert_eq!(heights("bob", Some(1)), vec![5]);
    assert_eq!(heights("bob", Some(0)), vec![5]);
    assert_eq!(heights("bob", Some(9)), vec![5, 3, 2]);
    assert_eq!(heights("alice", None), vec![1]);
    assert_eq!(heights("nobody", None), Vec::<u64>::new());
    let listed = chain.get_address_transactions("carol", None).unwrap();
    let block = chain.get_block_by_height(4).unwrap().unwrap();
    assert_eq!(listed.len(), 1);
    assert_eq!(listed[0].0, block.transactions[0].hash());
    assert_eq!(listed[0].1.encode(), block.transactions[0].encode());
    assert_eq!(listed[0].2, 4);
}

#[test]
fn a_transaction_has_to_do_with_whom_it_pays_or_spends_from() {
    let mut set = UtxoSet::new();
    let seed = Transaction::new_coinbase("alice".to_string(), 200_000, "sd".to_string());
    set.apply_transaction(&seed, 1).unwrap();
    let mut tx = Transaction::new();
    tx.add_input(OutPoint::new(seed.hash(), 0), vec![0x51]);
    tx.add_output(150_000, "bob");
    assert!(transaction_involves(&tx, &set, "bob"));
    assert!(transaction_involves(&tx, &set, "alice"));
    assert!(!transaction_involves(&tx, &set, "carol"));
    // Once the output is spent the set no longer tells whose it was.
    assert!(!transaction_involves(&tx, &UtxoSet::new(), "alice"));
    assert!(transaction_involves(&tx, &UtxoSet::new(), "bob"));
    assert!(transaction_involves(&seed, &set, "alice"));
    assert!(!transaction_involves(&seed, &set, "bob"));
    let script = Transaction::address_to_script_pubkey("bob");
    assert!(script_pays(&script, "bob"));
    assert!(!script_pays(&script, "alice"));
    assert!(script_pays(&[], "unknown"));
    assert!(!script_pays(&[], "bob"));
}
