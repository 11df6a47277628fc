use quantum_goldchain::chain::block::Block;
use quantum_goldchain::chain::transaction::{OutPoint, Transaction, TxOutput};
use quantum_goldchain::chain::utxo::{script_pays_address, script_to_address, UtxoSet};
use quantum_goldchain::crypto::hash::{Hash256, Hashable};
use quantum_goldchain::error::{QtcError, TxReason};

#[test]
fn test_utxo_set_coinbase() -> Result<(), QtcError> {
    let mut utxo_set = UtxoSet::new();

    let coinbase_tx =
        Transaction::new_coinbase("qtc1test".to_string(), 2710000000, "test".to_string());

    utxo_set.apply_transaction(&coinbase_tx, 0)?;

    let balance = utxo_set.get_balance("qtc1test")?;
    assert_eq!(balance, 2710000000);

    Ok(())
}

#[test]
fn test_utxo_set_spending() -> Result<(), QtcError> {
    let mut utxo_set = UtxoSet::new();

    // Create coinbase transaction
    let coinbase_tx = Transaction::new_coinbase("qtc1test".to_string(), 1000, "test".to_string());
    let coinbase_hash = coinbase_tx.hash();

    utxo_set.apply_transaction(&coinbase_tx, 0)?;

    // Create spending transaction
    let mut spend_tx = Transaction::new();
    spend_tx.add_input(OutPoint::new(coinbase_hash, 0), vec![]);
    spend_tx.add_output(500, "qtc1recipient");
    spend_tx.add_output(400, "qtc1test"); // change

    utxo_set.apply_transaction(&spend_tx, 1)?;
    assert_eq!(utxo_set.get_balance("qtc1recipient")?, 500);
    assert_eq!(utxo_set.get_balance("qtc1test")?, 400);
    assert_eq!(utxo_set.get_total_supply()?, 900);
    assert!(!utxo_set.has_utxo(&OutPoint::new(coinbase_hash, 0)));

    Ok(())
}

#[test]
fn a_missing_input_leaves_the_set_as_it_was() {
    let mut set = UtxoSet::new();
    let coinbase = Transaction::new_coinbase("a".to_string(), 1000, "xx".to_string());
    set.apply_transaction(&coinbase, 0).unwrap();
    let mut tx = Transaction::new();
    tx.add_input(OutPoint::new(coinbase.hash(), 0), vec![]);
    tx.add_input(OutPoint::new(coinbase.hash(), 1), vec![]);
    tx.add_output(10, "b");
    assert_eq!(
        set.apply_transaction(&tx, 1),
        Err(QtcError::Transaction(TxReason::MissingUtxo { index: 1 }))
    );
    assert_eq!(set.get_utxo_count(), 1);
    assert!(set.has_utxo(&OutPoint::new(coinbase.hash(), 0)));
    assert_eq!(set.get_balance("a"), Ok(1000));
    // The same input twice: gone when its second turn comes.
    let mut twice = Transaction::new();
    twice.add_input(OutPoint::new(coinbase.hash(), 0), vec![]);
    twice.add_input(OutPoint::new(coinbase.hash(), 0), vec![]);
    twice.add_output(10, "b");
    assert_eq!(
        set.apply_transaction(&twice, 1),
        Err(QtcError::Transaction(TxReason::MissingUtxo { index: 1 }))
    );
    assert_eq!(set.get_utxo_count(), 1);
}

#[test]
fn a_block_is_applied_whole_or_not_at_all() {
    let mut set = UtxoSet::new();
    let coinbase = Transaction::new_coinbase("a".to_string(), 1000, "xx".to_string());
    let mut spend = Transaction::new();
    spend.add_input(OutPoint::new(coinbase.hash(), 0), vec![]);
    spend.add_output(600, "b");
    let mut bad = Transaction::new();
    bad.add_input(OutPoint::new(Hash256::new([4u8; 32]), 0), vec![]);
    bad.add_output(1, "c");
    let failing = Block::with_timestamp(
        Hash256::zero(),
        vec![coinbase.clone(), spend.clone(), bad],
        6,
        3,
        0,
    );
    assert_eq!(
        set.apply_block(&failing),
        Err(QtcError::Transaction(TxReason::MissingUtxo { index: 0 }))
    );
    assert_eq!(set.get_utxo_count(), 0);
    let block = Block::with_timestamp(Hash256::zero(), vec![coinbase.clone(), spend], 6, 3, 0);
    assert_eq!(set.apply_block(&block), Ok(()));
    // The coinbase output was spent within the block.
    assert_eq!(set.get_utxo_count(), 1);
    assert_eq!(set.get_balance("a"), Ok(0));
    assert_eq!(set.get_balance("b"), Ok(600));
    let entry = set.get_utxo(&OutPoint::new(block.transactions[1].hash(), 0)).unwrap();
    assert_eq!(entry.height, 3);
    assert!(!entry.is_coinbase);
    assert_eq!(entry.vout, 0);
    assert_eq!(entry.value, 600);
    assert_eq!(entry.address, script_to_address(&entry.script_pubkey).unwrap());
    assert!(entry.address.starts_with("qtc1q"));
    assert_eq!(entry.address.len(), 5 + 40);
    assert_eq!(set.get_balance(&entry.address), Ok(600));
    assert_eq!(set.flush(), Ok(()));
}

#[test]
fn an_output_recorded_twice_is_held_once() {
    let mut set = UtxoSet::new();
    let coinbase = Transaction::new_coinbase("a".to_string(), 1000, "xx".to_string());
    set.apply_transaction(&coinbase, 0).unwrap();
    set.apply_transaction(&coinbase, 5).unwrap();
    assert_eq!(set.get_utxo_count(), 1);
    assert_eq!(set.get_balance("a"), Ok(1000));
    assert_eq!(set.get_utxo(&OutPoint::new(coinbase.hash(), 0)).unwrap().height, 5);
}

#[test]
fn outputs_of_an_address_in_order_and_overflowing_sums() {
    let mut set = UtxoSet::new();
    let mut tx = Transaction::new_coinbase("a".to_string(), 7, "xx".to_string());
    tx.outputs.push(TxOutput { value: 9, script_pubkey: Transaction::address_to_script_pubkey("b") });
    tx.outputs.push(TxOutput { value: 11, script_pubkey: Transaction::address_to_script_pubkey("a") });
    tx.outputs.push(TxOutput { value: 13, script_pubkey: vec![1, 2, 3] });
    set.apply_transaction(&tx, 2).unwrap();
    let hash = tx.hash();
    assert_eq!(set.get_utxos("a"), vec![(hash, 0, 7), (hash, 2, 11)]);
    assert_eq!(set.get_utxos("b"), vec![(hash, 1, 9)]);
    assert_eq!(set.get_utxos("unknown"), vec![(hash, 3, 13)]);
    assert_eq!(set.get_balance("a"), Ok(18));
    assert_eq!(set.get_total_supply(), Ok(40));
    assert!(script_to_address(&[1, 2, 3]).is_none());
    assert!(script_pays_address(&Transaction::address_to_script_pubkey("a"), "a"));
    assert!(!script_pays_address(&Transaction::address_to_script_pubkey("a"), "b"));
    assert!(!script_pays_address(&[1, 2, 3], "a"));

    let mut huge = Transaction::new_coinbase("a".to_string(), u64::MAX, "yy".to_string());
    huge.outputs.push(TxOutput { value: 1, script_pubkey: Transaction::address_to_script_pubkey("a") });
    let mut big = UtxoSet::new();
    big.apply_transaction(&huge, 0).unwrap();
    assert_eq!(big.get_balance("a"), Err(QtcError::Transaction(TxReason::ValueOverflow)));
    assert_eq!(big.get_total_supply(), Err(QtcError::Transaction(TxReason::ValueOverflow)));
    let mut spend = Transaction::new();
    spend.add_input(OutPoint::new(huge.hash(), 0), vec![]);
    spend.add_input(OutPoint::new(huge.hash(), 1), vec![]);
    spend.add_output(5, "c");
    assert_eq!(
        big.validate_transaction(&spend),
        Err(QtcError::Transaction(TxReason::ValueOverflow))
    );
    let mut poor = Transaction::new();
    poor.add_input(OutPoint::new(huge.hash(), 1), vec![]);
    poor.add_output(5, "c");
    assert_eq!(
        big.validate_transaction(&poor),
        Err(QtcError::Transaction(TxReason::InputsBelowOutputs))
    );
    assert_eq!(big.validate_transaction(&huge), Ok(true));
}

#[test]
fn fees_are_told_against_the_unspent_outputs() {
    let mut set = UtxoSet::new();
    let seed = Transaction::new_coinbase("seed".to_string(), 200_000, "sd".to_string());
    set.apply_transaction(&seed, 1).unwrap();
    assert_eq!(seed.fee(&set), Some(0));
    assert_eq!(seed.fee(&UtxoSet::new()), Some(0));

    let mut first = Transaction::new();
    first.add_input(OutPoint::new(seed.hash(), 0), vec![0x51]);
    first.add_output(150_000, "a");
    first.add_output(47_000, "b");
    assert_eq!(first.total_input_value(&set), Some(200_000));
    assert_eq!(first.fee(&set), Some(3_000));
    // Without the output it spends there is no fee to tell.
    assert_eq!(first.total_input_value(&UtxoSet::new()), None);
    assert_eq!(first.fee(&UtxoSet::new()), None);
    let mut greedy = first.clone();
    greedy.outputs[0].value = 160_000;
    assert_eq!(greedy.fee(&set), None);
    let mut endless = first.clone();
    endless.outputs[0].value = u64::MAX;
    assert_eq!(endless.fee(&set), None);

    // The second transaction spends what the first leaves.
    let mut second = Transaction::new();
    second.add_input(OutPoint::new(first.hash(), 1), vec![0x51]);
    second.add_output(45_000, "c");
    assert_eq!(second.fee(&set), None);
    let coinbase = Transaction::new_coinbase("miner".to_string(), 5_000, "cb".to_string());
    let block = Block::with_timestamp(
        Hash256::zero(),
        vec![coinbase.clone(), first.clone(), second.clone()],
        6,
        2,
        1_000,
    );
    assert_eq!(block.total_fees(&set), Some(3_000 + 2_000));
    let alone = Block::with_timestamp(Hash256::zero(), vec![coinbase.clone()], 6, 2, 1_000);
    assert_eq!(alone.total_fees(&set), Some(0));
    let empty = Block::with_timestamp(Hash256::zero(), vec![], 6, 2, 1_000);
    assert_eq!(empty.total_fees(&set), Some(0));
    // In the other order the second finds nothing to spend.
    let swapped =
        Block::with_timestamp(Hash256::zero(), vec![coinbase.clone(), second, first.clone()], 6, 2, 1_000);
    assert_eq!(swapped.total_fees(&set), None);
    // Spent twice: the second time it cannot be applied.
    let twice = Block::with_timestamp(
        Hash256::zero(),
        vec![coinbase, first.clone(), first],
        6,
        2,
        1_000,
    );
    assert_eq!(twice.total_fees(&set), None);
    // The set is left as it was.
    assert_eq!(set.get_utxo_count(), 1);
}
