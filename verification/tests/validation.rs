use quantum_goldchain::chain::block::Block;
use quantum_goldchain::chain::transaction::{OutPoint, Transaction, TxOutput};
use quantum_goldchain::chain::utxo::UtxoSet;
use quantum_goldchain::consensus::validation::BlockValidator;
use quantum_goldchain::crypto::hash::{Hash256, Hashable};
use quantum_goldchain::error::{BlockReason, QtcError, TxReason};
use quantum_goldchain::mining::miner::mine_range;
use quantum_goldchain::mining::randomx::RandomXMiner;

#[test]
fn test_validator_creation() {
    let validator = BlockValidator::new();
    assert_eq!(validator.max_block_size, 1024 * 1024);
    assert_eq!(validator.min_transaction_fee, 1000);
}

#[test]
fn test_coinbase_structure_validation() -> Result<(), QtcError> {
    let validator = BlockValidator::new();

    // Valid coinbase
    let coinbase = Transaction::new_coinbase(
        "qtc1test".to_string(),
        2710000000,
        "test coinbase".to_string(),
    );

    validator.validate_coinbase_structure(&coinbase)?;

    Ok(())
}

#[test]
fn test_merkle_root_validation() -> Result<(), QtcError> {
    let validator = BlockValidator::new();

    let coinbase =
        Transaction::new_coinbase("qtc1test".to_string(), 2710000000, "test".to_string());

    let block = Block::new(Hash256::zero(), vec![coinbase], 4, 0);

    validator.validate_merkle_root(&block)?;

    Ok(())
}

#[test]
fn test_block_size_validation() -> Result<(), QtcError> {
    let validator = BlockValidator::new();

    let coinbase =
        Transaction::new_coinbase("qtc1test".to_string(), 2710000000, "test".to_string());

    let block = Block::new(Hash256::zero(), vec![coinbase], 4, 0);

    validator.validate_block_size(&block)?;

    Ok(())
}

/// A set with one ordinary and one coinbase output of 100 000 each at
/// height 10.
fn funded() -> (UtxoSet, OutPoint, OutPoint) {
    let mut set = UtxoSet::new();
    let mut source = Transaction::new();
    source.add_input(OutPoint::new(Hash256::new([3u8; 32]), 0), vec![]);
    source.add_output(100_000, "owner");
    source.add_output(100_000, "owner");
    // Applied as a coinbase would be: without looking for its input.
    let coinbase = Transaction::new_coinbase("owner".to_string(), 100_000, "cb".to_string());
    set.apply_transaction(&coinbase, 10).unwrap();
    let mut plain = UtxoSet::new();
    let seed = Transaction::new_coinbase("seed".to_string(), 200_000, "sd".to_string());
    plain.apply_transaction(&seed, 0).unwrap();
    let mut split = Transaction::new();
    split.add_input(OutPoint::new(seed.hash(), 0), vec![]);
    split.add_output(100_000, "owner");
    split.add_output(100_000, "owner");
    plain.apply_transaction(&split, 10).unwrap();
    set.apply_transaction(&seed, 0).unwrap();
    set.apply_transaction(&split, 10).unwrap();
    let _ = source;
    (set, OutPoint::new(split.hash(), 0), OutPoint::new(coinbase.hash(), 0))
}

/// A transaction that spends one output to one receiver, with a script of
/// one byte in the place of a signature.
fn spend(outpoint: &OutPoint, value: u64) -> Transaction {
    let mut tx = Transaction::new();
    tx.add_input(outpoint.clone(), vec![0x51]);
    tx.add_output(value, "receiver");
    tx
}

#[test]
fn transactions_are_held_to_every_rule_in_order() {
    let validator = BlockValidator::new();
    let (set, plain, coinbase) = funded();
    let check = |tx: &Transaction, tip: u64| validator.check_transaction(tx, &set, tip);
    let reason = |r| Err(QtcError::Transaction(r));

    let good = spend(&plain, 98_000);
    assert_eq!(check(&good, 10), Ok(2000));

    assert_eq!(check(&Transaction::new(), 10), reason(TxReason::NoInputs));
    let mut no_outputs = good.clone();
    no_outputs.outputs.clear();
    assert_eq!(check(&no_outputs, 10), reason(TxReason::NoOutputs));
    let cb = Transaction::new_coinbase("a".to_string(), 1, "xx".to_string());
    assert_eq!(check(&cb, 10), reason(TxReason::UnexpectedCoinbase));

    let mut twice = good.clone();
    twice.add_input(OutPoint::new(Hash256::new([8u8; 32]), 1), vec![]);
    twice.add_input(plain.clone(), vec![]);
    assert_eq!(check(&twice, 10), reason(TxReason::DuplicateInput { index: 2 }));

    let mut unknown = good.clone();
    unknown.add_input(OutPoint::new(Hash256::new([8u8; 32]), 1), vec![]);
    assert_eq!(check(&unknown, 10), reason(TxReason::MissingUtxo { index: 1 }));

    // A coinbase of height 10 matures for the block at height 110.
    let young = spend(&coinbase, 98_000);
    assert_eq!(check(&young, 108), reason(TxReason::ImmatureCoinbase { index: 0 }));
    assert_eq!(check(&young, 109), Ok(2000));

    let mut zero = good.clone();
    zero.outputs.push(TxOutput { value: 0, script_pubkey: vec![] });
    assert_eq!(check(&zero, 10), reason(TxReason::ZeroOutput { index: 1 }));
    let mut dust = good.clone();
    dust.outputs.push(TxOutput { value: 545, script_pubkey: vec![] });
    assert_eq!(check(&dust, 10), reason(TxReason::DustOutput { index: 1 }));
    let mut no_dust = spend(&plain, 97_000);
    no_dust.outputs.push(TxOutput { value: 546, script_pubkey: vec![] });
    assert_eq!(check(&no_dust, 10), Ok(100_000 - 97_000 - 546));

    let mut overflow = good.clone();
    overflow.outputs.push(TxOutput { value: u64::MAX, script_pubkey: vec![] });
    assert_eq!(check(&overflow, 10), reason(TxReason::ValueOverflow));

    assert_eq!(check(&spend(&plain, 100_001), 10), reason(TxReason::InputsBelowOutputs));
    // The transaction has 102 bytes: ten units a byte are more than the
    // minimum fee of 1000.
    assert_eq!(spend(&plain, 99_001).size(), 102);
    assert_eq!(
        check(&spend(&plain, 99_001), 10),
        reason(TxReason::FeeBelowMinimum { fee: 999, minimum: 1020 })
    );
    assert_eq!(
        check(&spend(&plain, 98_981), 10),
        reason(TxReason::FeeBelowMinimum { fee: 1019, minimum: 1020 })
    );
    assert_eq!(check(&spend(&plain, 98_980), 10), Ok(1020));
    let cheap = BlockValidator::with_params(1_000_000, 100_000, 5000, 0);
    assert_eq!(
        cheap.check_transaction(&spend(&plain, 98_000), &set, 10),
        reason(TxReason::FeeBelowMinimum { fee: 2000, minimum: 5000 })
    );
    // The fee may not be more than the outputs together.
    assert_eq!(check(&spend(&plain, 49_999), 10), reason(TxReason::ExcessiveFee));
    assert_eq!(check(&spend(&plain, 50_000), 10), Ok(50_000));

    // Every input carries a signature script; that is asked last.
    let mut unsigned = good.clone();
    unsigned.inputs[0].signature_script.clear();
    assert_eq!(unsigned.size(), 101);
    assert_eq!(check(&unsigned, 10), reason(TxReason::MissingSignature { index: 0 }));
    let mut half_signed = spend(&plain, 150_000);
    half_signed.add_input(coinbase.clone(), vec![]);
    assert_eq!(check(&half_signed, 200), reason(TxReason::MissingSignature { index: 1 }));
    half_signed.inputs[1].signature_script = vec![0x51];
    assert_eq!(check(&half_signed, 200), Ok(50_000));
    let mut unsigned_and_cheap = spend(&plain, 99_500);
    unsigned_and_cheap.inputs[0].signature_script.clear();
    assert_eq!(
        check(&unsigned_and_cheap, 10),
        reason(TxReason::FeeBelowMinimum { fee: 500, minimum: 1010 })
    );

    // Ten units a byte where that is more than the minimum fee.
    let mut wide = spend(&plain, 98_000);
    wide.inputs[0].signature_script = vec![0u8; 200];
    let size = wide.size() as u64;
    assert!(size * 10 > 2000);
    assert_eq!(
        check(&wide, 10),
        reason(TxReason::FeeBelowMinimum { fee: 2000, minimum: size * 10 })
    );
}

#[test]
fn accepted_transactions_conserve_value() {
    let validator = BlockValidator::new();
    let (set, plain, _) = funded();
    for value in [50_000u64, 60_000, 98_000, 98_980] {
        let tx = spend(&plain, value);
        let fee = validator.check_transaction(&tx, &set, 10).unwrap();
        assert_eq!(set.total_input_value(&tx).unwrap() - tx.total_output_value(), fee);
        assert_eq!(set.validate_transaction(&tx), Ok(true));
    }
}

#[test]
fn structure_and_finality() {
    let validator = BlockValidator::new();
    let coinbase = Transaction::new_coinbase("a".to_string(), 1, "xx".to_string());
    let plain = spend(&OutPoint::new(Hash256::new([1u8; 32]), 0), 5);
    let block = |txs: Vec<Transaction>| Block::with_timestamp(Hash256::zero(), txs, 6, 1, 0);
    assert_eq!(
        validator.validate_block_structure(&block(vec![])),
        Err(QtcError::Consensus(BlockReason::NoTransactions))
    );
    assert_eq!(
        validator.validate_block_structure(&block(vec![plain.clone()])),
        Err(QtcError::Consensus(BlockReason::FirstNotCoinbase))
    );
    assert_eq!(
        validator.validate_block_structure(&block(vec![
            coinbase.clone(),
            plain.clone(),
            coinbase.clone(),
            coinbase.clone()
        ])),
        Err(QtcError::Consensus(BlockReason::ExtraCoinbase { index: 2 }))
    );
    assert_eq!(validator.validate_block_structure(&block(vec![coinbase.clone(), plain.clone()])), Ok(()));
    assert_eq!(
        validator.validate_coinbase_structure(&plain),
        Err(QtcError::Consensus(BlockReason::FirstNotCoinbase))
    );
    let short = Transaction::new_coinbase("a".to_string(), 1, "x".to_string());
    assert_eq!(
        validator.validate_coinbase_structure(&short),
        Err(QtcError::Consensus(BlockReason::CoinbaseScriptSize))
    );
    let mut tampered = block(vec![coinbase.clone()]);
    tampered.header.merkle_root = Hash256::zero();
    assert_eq!(
        validator.validate_merkle_root(&tampered),
        Err(QtcError::Consensus(BlockReason::MerkleMismatch))
    );
    let small = BlockValidator::with_params(10, 10, 1, 1);
    assert_eq!(small.get_config(), (10, 10, 1, 1));
    let whole = block(vec![coinbase.clone()]);
    assert_eq!(
        small.validate_block_size(&whole),
        Err(QtcError::Consensus(BlockReason::TooLarge { size: whole.size(), max: 10 }))
    );

    let mut locked = plain.clone();
    assert!(validator.is_transaction_final(&locked, 0, 0));
    locked.lock_time = 100;
    assert!(!validator.is_transaction_final(&locked, 99, u64::MAX));
    assert!(validator.is_transaction_final(&locked, 100, 0));
    locked.lock_time = 500_000_000;
    assert!(!validator.is_transaction_final(&locked, u64::MAX, 499_999_999));
    assert!(validator.is_transaction_final(&locked, 0, 500_000_000));
}

#[test]
fn a_run_of_blocks_is_checked_link_by_link() {
    let validator = BlockValidator::new();
    let key = Hash256::new([5u8; 32]);
    let miner = RandomXMiner::new(key.as_bytes(), Some(1), false).unwrap();
    let mut blocks: Vec<Block> = Vec::new();
    let mut previous = Hash256::new([9u8; 32]);
    for height in 7..10u64 {
        let coinbase = Transaction::new_coinbase("a".to_string(), 1, format!("h{}", height));
        let block = Block::with_timestamp(previous, vec![coinbase], 6, height, height);
        let mined = mine_range(block, &miner, 0, 10_000_000).unwrap().block;
        assert_eq!(validator.validate_proof_of_work(&mined, &key), Ok(()));
        previous = mined.hash();
        blocks.push(mined);
    }
    assert_eq!(validator.validate_chain(&blocks, 7, &key), Ok(()));
    assert_eq!(validator.validate_chain(&[], 7, &key), Ok(()));
    assert_eq!(
        validator.validate_chain(&blocks, 6, &key),
        Err(QtcError::Consensus(BlockReason::BadHeight { expected: 6, got: 7 }))
    );
    let other = Hash256::new([6u8; 32]);
    assert!(matches!(
        validator.validate_chain(&blocks, 7, &other),
        Err(QtcError::Consensus(BlockReason::BadProofOfWork)) | Ok(())
    ));
    let mut broken = blocks.clone();
    broken.swap(0, 1);
    assert_eq!(
        validator.validate_chain(&broken, 7, &key),
        Err(QtcError::Consensus(BlockReason::BadHeight { expected: 7, got: 8 }))
    );
    let unlinked = vec![blocks[0].clone(), {
        let coinbase = Transaction::new_coinbase("a".to_string(), 1, "zz".to_string());
        let block = Block::with_timestamp(Hash256::zero(), vec![coinbase], 6, 8, 8);
        mine_range(block, &miner, 0, 10_000_000).unwrap().block
    }];
    assert_eq!(
        validator.validate_chain(&unlinked, 7, &key),
        Err(QtcError::Consensus(BlockReason::BrokenLink { index: 1 }))
    );
}
