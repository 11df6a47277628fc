use quantum_goldchain::chain::block::Block;
use quantum_goldchain::chain::blockchain::{
    Blockchain, ChainParams, ChainState, GENESIS_TIMESTAMP,
};
use quantum_goldchain::chain::transaction::{OutPoint, Transaction};
use quantum_goldchain::crypto::hash::{Hash256, Hashable};
use quantum_goldchain::error::{BlockReason, ConfigReason, QtcError, TxReason};
use quantum_goldchain::mining::miner::{build_template, mine_range};
use quantum_goldchain::mining::randomx::RandomXMiner;
use quantum_goldchain::storage::database::{BatchOp, ColumnFamily};

const MINER: &str = "miner-address";

fn dev_chain() -> Blockchain {
    Blockchain::with_params(&ChainParams::development())
}

fn hasher(chain: &Blockchain) -> RandomXMiner {
    RandomXMiner::new(chain.pow_seed().as_bytes(), Some(1), false).unwrap()
}

/// Finds a nonce for the block and gives it back mined.
fn mine(chain: &Blockchain, block: Block) -> Block {
    mine_range(block, &hasher(chain), 0, 10_000_000).expect("a nonce within the range").block
}

/// A mined block on the tip with the given time and extra transactions.
fn next_block(chain: &Blockchain, time: u64, extra: Vec<Transaction>, fees: u64) -> Block {
    let template = build_template(chain, MINER, format!("block at {}", time), time).unwrap();
    let mut transactions = template.transactions.clone();
    transactions[0].outputs[0].value += fees;
    transactions.extend(extra);
    let block = Block::with_timestamp(
        template.header.previous_hash,
        transactions,
        template.header.difficulty,
        template.header.height,
        template.header.timestamp,
    );
    mine(chain, block)
}

/// Extends the chain by `count` empty blocks spaced `spacing` seconds.
fn extend(chain: &mut Blockchain, count: u64, spacing: u64) {
    for _ in 0..count {
        let time = GENESIS_TIMESTAMP + (chain.height() + 1) * spacing;
        let block = next_block(chain, time, vec![], 0);
        assert_eq!(chain.add_block_at(block, time), Ok(()));
    }
}

/// A transaction that spends the coinbase of block 1 and pays the rest
/// after `fee` back to the miner.
fn spend_first_coinbase(chain: &Blockchain, fee: u64) -> Transaction {
    let first = chain.get_block_by_height(1).unwrap().unwrap();
    let coinbase_hash = first.transactions[0].hash();
    let mut tx = Transaction::new();
    tx.add_input(OutPoint::new(coinbase_hash, 0), vec![0x51]);
    tx.add_output(2_710_000_000 - fee, "someone");
    tx
}

#[test]
fn genesis_bootstrap() {
    let chain = Blockchain::new().unwrap();
    assert_eq!(chain.height(), 0);
    assert_eq!(
        chain.tip().to_hex(),
        "ba093e841aef43846b6a0330015f2e24b5c9c75ebb865221983e0249aaa336f3"
    );
    let info = chain.get_chain_info().unwrap();
    assert_eq!(info.total_supply, 0);
    assert_eq!(info.height, 0);
    assert_eq!(info.tip, chain.tip());
    assert_eq!(info.difficulty, 20);
    assert_eq!(info.total_work, 0);
    assert_eq!(chain.monetary_policy().coinbase_reward(1), 2_710_000_000);
    assert_eq!(chain.pow_seed(), chain.tip());

    let genesis = Blockchain::create_genesis_block();
    assert_eq!(genesis.hash(), chain.tip());
    assert_eq!(genesis.header.previous_hash, Hash256::zero());
    assert_eq!(genesis.header.timestamp, GENESIS_TIMESTAMP);
    assert_eq!(genesis.header.nonce, 0);
    assert_eq!(genesis.header.height, 0);
    assert_eq!(genesis.transactions.len(), 1);
    assert_eq!(genesis.transactions[0].outputs[0].value, 0);
    assert_eq!(
        genesis.transactions[0].hash().to_hex(),
        "875509efe2090003e67166e987f390a64e0845b1096cfafe094cc1f80d37b735"
    );
    assert_eq!(
        dev_chain().tip().to_hex(),
        "86b3cabedb00187aac7cd05c66f3a075414f48a69b10b509fd5545e63f8685ed"
    );
    assert_eq!(chain.utxo_set().get_utxo_count(), 1);
    assert_eq!(chain.get_balance("qtc1qw508d6qejxtdg4y5r3zarvary0c5xw7kxdz6v9"), Ok(0));
    assert_eq!(ChainState::default().height, 0);
}

#[test]
fn single_block_application() {
    let mut chain = dev_chain();
    let time = GENESIS_TIMESTAMP + 450;
    let block = next_block(&chain, time, vec![], 0);
    assert!(chain.is_valid_proof_of_work(&block));
    assert_eq!(chain.add_block_at(block.clone(), time), Ok(()));
    assert_eq!(chain.height(), 1);
    assert_eq!(chain.tip(), block.hash());
    assert_eq!(chain.get_balance(MINER), Ok(2_710_000_000));
    let utxos = chain.get_utxos(MINER).unwrap();
    assert_eq!(utxos.len(), 1);
    assert_eq!(utxos[0], (block.transactions[0].hash(), 0, 2_710_000_000));
    let entry = chain
        .utxo_set()
        .get_utxo(&OutPoint::new(block.transactions[0].hash(), 0))
        .unwrap();
    assert!(entry.is_coinbase);
    assert_eq!(entry.height, 1);
    assert_eq!(entry.value, 2_710_000_000);
    let info = chain.get_chain_info().unwrap();
    assert_eq!(info.height, 1);
    assert_eq!(info.total_supply, 2_710_000_000);
    assert_eq!(info.difficulty, 6);
    assert_eq!(chain.get_block(&block.hash()).unwrap().unwrap().hash(), block.hash());
    assert!(chain.get_block(&Hash256::zero()).unwrap().is_none());
    assert!(chain.get_block_by_height(2).unwrap().is_none());
    let latest = chain.get_latest_blocks(5).unwrap();
    assert_eq!(latest.len(), 2);
    assert_eq!(latest[0].header.height, 1);
    assert_eq!(latest[1].header.height, 0);
    assert_eq!(chain.get_current_difficulty(), Ok(6));
    assert_eq!(chain.calculate_total_supply(2), 2 * 2_710_000_000);
}

#[test]
fn add_block_uses_the_clock() {
    let mut chain = dev_chain();
    // A block of the genesis era lies in the past of any clock.
    let block = next_block(&chain, GENESIS_TIMESTAMP + 450, vec![], 0);
    assert_eq!(chain.add_block(block), Ok(()));
    assert_eq!(chain.height(), 1);
}

#[test]
fn refused_blocks_leave_the_chain_as_it_was() {
    let mut chain = dev_chain();
    let time = GENESIS_TIMESTAMP + 450;
    let good = next_block(&chain, time, vec![], 0);
    let tip = chain.tip();

    let mut wrong_height = good.clone();
    wrong_height.header.height = 2;
    assert_eq!(
        chain.add_block_at(wrong_height, time),
        Err(QtcError::Consensus(BlockReason::BadHeight { expected: 1, got: 2 }))
    );
    let mut wrong_parent = good.clone();
    wrong_parent.header.previous_hash = Hash256::new([1u8; 32]);
    assert_eq!(
        chain.add_block_at(wrong_parent, time),
        Err(QtcError::Consensus(BlockReason::BadPreviousHash))
    );
    assert_eq!(
        chain.add_block_at(good.clone(), time - 7201),
        Err(QtcError::Consensus(BlockReason::TimestampTooFarInFuture))
    );
    assert_eq!(chain.add_block_at(good.clone(), time - 7200), Ok(()));
    let mut chain = dev_chain();
    let mut wrong_difficulty = good.clone();
    wrong_difficulty.header.difficulty = 7;
    assert_eq!(
        chain.add_block_at(wrong_difficulty, time),
        Err(QtcError::Consensus(BlockReason::WrongDifficulty { expected: 6, got: 7 }))
    );
    let mut greedy = good.clone();
    greedy.transactions[0].outputs[0].value += 1;
    assert_eq!(
        chain.add_block_at(greedy, time),
        Err(QtcError::Consensus(BlockReason::CoinbaseExceedsReward))
    );
    let mut empty = good.clone();
    empty.transactions.clear();
    assert_eq!(
        chain.add_block_at(empty, time),
        Err(QtcError::Consensus(BlockReason::NoTransactions))
    );
    let mut twice = good.clone();
    twice.transactions.push(Transaction::new_coinbase("x".to_string(), 1, "yy".to_string()));
    assert_eq!(
        chain.add_block_at(twice, time),
        Err(QtcError::Consensus(BlockReason::ExtraCoinbase { index: 1 }))
    );
    // An unmined block: the first nonce that fails the proof of work.
    let mut unmined = good.clone();
    let miner = hasher(&chain);
    let mut nonce = 0u64;
    loop {
        unmined.set_nonce(nonce);
        if !miner.hash(&unmined.header.encode()).unwrap().meets_difficulty(6) {
            break;
        }
        nonce += 1;
    }
    assert!(!chain.is_valid_proof_of_work(&unmined));
    assert_eq!(
        chain.add_block_at(unmined, time),
        Err(QtcError::Consensus(BlockReason::BadProofOfWork))
    );
    assert_eq!(chain.height(), 0);
    assert_eq!(chain.tip(), tip);
    assert_eq!(chain.utxo_set().get_utxo_count(), 1);
}

#[test]
fn coinbase_script_and_outputs_are_checked() {
    let mut chain = dev_chain();
    let time = GENESIS_TIMESTAMP + 450;
    let template = build_template(&chain, MINER, "x".to_string(), time).unwrap();
    let short = mine(&chain, template);
    assert_eq!(
        chain.add_block_at(short, time),
        Err(QtcError::Consensus(BlockReason::CoinbaseScriptSize))
    );
    let template = build_template(&chain, MINER, "y".repeat(101), time).unwrap();
    assert_eq!(
        chain.add_block_at(mine(&chain, template), time),
        Err(QtcError::Consensus(BlockReason::CoinbaseScriptSize))
    );
    let template = build_template(&chain, MINER, "ok".to_string(), time).unwrap();
    let mut no_value = template.transactions.clone();
    no_value[0].outputs[0].value = 0;
    let block = Block::with_timestamp(template.header.previous_hash, no_value, 6, 1, time);
    assert_eq!(
        chain.add_block_at(mine(&chain, block), time),
        Err(QtcError::Consensus(BlockReason::CoinbaseZeroOutput { index: 0 }))
    );
    let mut no_outputs = template.transactions.clone();
    no_outputs[0].outputs.clear();
    let block = Block::with_timestamp(template.header.previous_hash, no_outputs, 6, 1, time);
    assert_eq!(
        chain.add_block_at(mine(&chain, block), time),
        Err(QtcError::Consensus(BlockReason::CoinbaseNoOutputs))
    );
    let mut large = chain.validator();
    large.update_config(Some(100), None, None, None);
    let block = mine(&chain, build_template(&chain, MINER, "ok".to_string(), time).unwrap());
    let context = chain.validation_context(time).unwrap();
    assert_eq!(
        large.check_block(&block, &context, chain.utxo_set()).err(),
        Some(QtcError::Consensus(BlockReason::TooLarge { size: block.size(), max: 100 }))
    );
    let mut small_tx = chain.validator();
    small_tx.update_config(None, Some(10), None, None);
    assert_eq!(
        small_tx.check_block(&block, &context, chain.utxo_set()).err(),
        Some(QtcError::Consensus(BlockReason::TransactionTooLarge {
            index: 0,
            size: block.transactions[0].size(),
            max: 10
        }))
    );
    assert_eq!(chain.validator().validate_block_at(&block, &chain, time), Ok(()));
    assert_eq!(chain.add_block_at(block, time), Ok(()));
}

#[test]
fn coinbase_maturity() {
    let mut chain = dev_chain();
    extend(&mut chain, 50, 450);
    assert_eq!(chain.height(), 50);
    let tx = spend_first_coinbase(&chain, 2000);
    let validator = chain.validator();
    assert_eq!(
        validator.validate_transaction(&tx, &chain),
        Err(QtcError::Transaction(TxReason::ImmatureCoinbase { index: 0 }))
    );
    extend(&mut chain, 49, 450);
    assert_eq!(chain.height(), 99);
    assert_eq!(
        validator.validate_transaction(&tx, &chain),
        Err(QtcError::Transaction(TxReason::ImmatureCoinbase { index: 0 }))
    );
    extend(&mut chain, 1, 450);
    assert_eq!(chain.height(), 100);
    assert_eq!(validator.validate_transaction(&tx, &chain), Ok(true));
    assert_eq!(validator.check_transaction(&tx, chain.utxo_set(), 100), Ok(2000));

    // The block that spends it: the fee goes to the coinbase.
    let time = GENESIS_TIMESTAMP + 101 * 450;
    let block = next_block(&chain, time, vec![tx.clone()], 2000);
    let commit = chain.prepare_block(&block, time).unwrap();
    assert_eq!(commit.state().height, 101);
    assert_eq!(commit.utxos().get_utxo_count(), chain.utxo_set().get_utxo_count() + 1);
    let batch = commit.write_batch();
    // Block, index and state; one spend (two deletes); two creations (three
    // puts each).
    assert_eq!(batch.len(), 3 + 2 + 3 + 3);
    match &batch.ops[0] {
        BatchOp::Put { family, key, value } => {
            assert_eq!(*family, ColumnFamily::Blocks);
            assert_eq!(key.as_slice(), block.hash().as_bytes());
            assert_eq!(value, &block.encode());
        }
        other => panic!("unexpected {:?}", other),
    }
    match &batch.ops[1] {
        BatchOp::Put { family, key, value } => {
            assert_eq!(*family, ColumnFamily::BlockIndex);
            assert_eq!(key.as_slice(), b"height_101");
            assert_eq!(value.as_slice(), block.hash().as_bytes());
        }
        other => panic!("unexpected {:?}", other),
    }
    match &batch.ops[2] {
        BatchOp::Put { family, key, value } => {
            assert_eq!(*family, ColumnFamily::ChainState);
            assert_eq!(key.as_slice(), b"current");
            assert_eq!(value, &commit.state().encode());
        }
        other => panic!("unexpected {:?}", other),
    }
    // Nothing has changed before the step is committed.
    assert_eq!(chain.height(), 100);
    assert_eq!(chain.commit_block(commit), Ok(()));
    assert_eq!(chain.height(), 101);
    assert_eq!(chain.tip(), block.hash());
    assert_eq!(chain.get_balance("someone"), Ok(2_710_000_000 - 2000));
    assert_eq!(chain.get_balance(MINER), Ok(100 * 2_710_000_000 + 2000));
    assert_eq!(chain.utxo_set().get_total_supply(), Ok(101 * 2_710_000_000));
    assert_eq!(chain.get_chain_info().unwrap().total_supply, 101 * 2_710_000_000);
    // Spending it again is refused.
    assert_eq!(
        validator.validate_transaction(&tx, &chain),
        Err(QtcError::Transaction(TxReason::MissingUtxo { index: 0 }))
    );
}

#[test]
fn merkle_tamper() {
    let mut chain = dev_chain();
    extend(&mut chain, 100, 450);
    let tx = spend_first_coinbase(&chain, 2000);
    let time = GENESIS_TIMESTAMP + 101 * 450;
    let block = next_block(&chain, time, vec![tx], 2000);
    let mut tampered = block.clone();
    tampered.transactions[1].lock_time ^= 1;
    assert_eq!(
        chain.add_block_at(tampered, time),
        Err(QtcError::Consensus(BlockReason::MerkleMismatch))
    );
    assert_eq!(chain.height(), 100);

    // A double spend within the block names the transaction and its input.
    let first = spend_first_coinbase(&chain, 2000);
    let mut second = spend_first_coinbase(&chain, 3000);
    second.lock_time = 7;
    let double = next_block(&chain, time, vec![first, second], 5000);
    assert_eq!(
        chain.add_block_at(double, time),
        Err(QtcError::Consensus(BlockReason::InvalidTransaction {
            index: 2,
            reason: TxReason::MissingUtxo { index: 0 }
        }))
    );
    // The same transaction twice is a duplicate.
    let again = spend_first_coinbase(&chain, 2000);
    let duplicate = next_block(&chain, time, vec![again.clone(), again], 4000);
    assert_eq!(
        chain.add_block_at(duplicate, time),
        Err(QtcError::Consensus(BlockReason::DuplicateTransaction { index: 2 }))
    );
    assert_eq!(chain.add_block_at(block, time), Ok(()));
    assert_eq!(chain.height(), 101);
}

#[test]
fn difficulty_retarget() {
    let mut chain = dev_chain();
    // Genesis and nine blocks: ten blocks spaced 225 s, half the target.
    extend(&mut chain, 9, 225);
    assert_eq!(chain.height(), 9);
    assert_eq!(chain.next_required_difficulty(), Ok(12));
    assert_eq!(chain.calculate_next_difficulty(10), Ok(12));
    // Any other height is not retargeted.
    assert_eq!(chain.calculate_next_difficulty(5), Ok(6));

    // On target the difficulty stays where it is.
    let mut steady = dev_chain();
    extend(&mut steady, 12, 450);
    assert_eq!(steady.next_required_difficulty(), Ok(6));
    // Before the interval is full the initial difficulty holds.
    let mut young = dev_chain();
    extend(&mut young, 3, 1);
    assert_eq!(young.next_required_difficulty(), Ok(6));
}

#[test]
fn timestamps_must_pass_the_median() {
    let mut chain = dev_chain();
    extend(&mut chain, 12, 450);
    // The median of the last eleven blocks (heights 2 to 12) is that of
    // height 7.
    let median = GENESIS_TIMESTAMP + 7 * 450;
    let now = GENESIS_TIMESTAMP + 13 * 450;
    let template = build_template(&chain, MINER, "late".to_string(), now).unwrap();
    let at_median = mine(
        &chain,
        Block::with_timestamp(
            template.header.previous_hash,
            template.transactions.clone(),
            template.header.difficulty,
            13,
            median,
        ),
    );
    assert_eq!(
        chain.add_block_at(at_median, now),
        Err(QtcError::Consensus(BlockReason::TimestampNotAfterMedian))
    );
    let after_median = mine(
        &chain,
        Block::with_timestamp(
            template.header.previous_hash,
            template.transactions.clone(),
            template.header.difficulty,
            13,
            median + 1,
        ),
    );
    // The window that the block is retargeted from runs forward, so it is
    // taken.
    assert_eq!(chain.add_block_at(after_median, now), Ok(()));
    // A template made long before takes the least time after the median:
    // of the heights 3 to 13 the median is now the block just added.
    let early = build_template(&chain, MINER, "early".to_string(), 5).unwrap();
    assert_eq!(early.header.timestamp, median + 2);
}

#[test]
fn a_window_that_runs_backwards_does_not_stop_the_chain() {
    let mut chain = dev_chain();
    extend(&mut chain, 9, 450);
    // A tenth block before the genesis block's time.
    let template = build_template(&chain, MINER, "back".to_string(), 5).unwrap();
    let block = mine(
        &chain,
        Block::with_timestamp(
            template.header.previous_hash,
            template.transactions.clone(),
            6,
            10,
            GENESIS_TIMESTAMP - 1,
        ),
    );
    // Ten blocks are at hand: the tenth is retargeted, to the same
    // difficulty here, and is taken.
    assert_eq!(chain.add_block_at(block, GENESIS_TIMESTAMP), Ok(()));
    // The window now runs backwards: the difficulty goes down by the
    // factor and is held at the least.
    assert_eq!(chain.next_required_difficulty(), Ok(6));
    assert_eq!(chain.calculate_next_difficulty(11), Ok(6));
    let now = GENESIS_TIMESTAMP + 10 * 450;
    let next = build_template(&chain, MINER, "next".to_string(), now).unwrap();
    assert_eq!(next.header.difficulty, 6);
    assert_eq!(next.header.height, 11);
    assert_eq!(chain.add_block_at(mine(&chain, next), now), Ok(()));
    assert_eq!(chain.height(), 11);
}

#[test]
fn a_step_prepared_on_another_tip_is_refused() {
    let mut chain = dev_chain();
    let mut other = dev_chain();
    let time = GENESIS_TIMESTAMP + 450;
    let first = next_block(&chain, time, vec![], 0);
    let commit = chain.prepare_block(&first, time).unwrap();
    assert_eq!(other.add_block_at(first.clone(), time), Ok(()));
    let second = next_block(&other, time + 450, vec![], 0);
    let later = other.prepare_block(&second, time + 450).unwrap();
    assert_eq!(
        chain.commit_block(later),
        Err(QtcError::Consensus(BlockReason::BadPreviousHash))
    );
    assert_eq!(chain.height(), 0);
    assert_eq!(chain.commit_block(commit), Ok(()));
    assert_eq!(chain.height(), 1);
    assert_eq!(chain.tip(), other.get_block_by_height(1).unwrap().unwrap().hash());
}
