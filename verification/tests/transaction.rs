use quantum_goldchain::chain::transaction::{OutPoint, Transaction, TxInput, TxOutput};
use quantum_goldchain::crypto::hash::{Hash256, Hashable};

#[test]
fn test_coinbase_transaction() {
    let tx = Transaction::new_coinbase(
        "qtc1test".to_string(),
        2710000000,
        "Genesis block".to_string(),
    );

    assert!(tx.is_coinbase());
    assert_eq!(tx.inputs.len(), 1);
    assert_eq!(tx.outputs.len(), 1);
    assert_eq!(tx.outputs[0].value, 2710000000);
}

#[test]
fn test_transaction_hash() {
    let tx = Transaction::new_coinbase("qtc1test".to_string(), 1000, "test".to_string());

    let hash1 = tx.hash();
    let hash2 = tx.hash();

    assert_eq!(hash1, hash2);
    assert_ne!(hash1, Hash256::zero());
}

#[test]
fn coinbase_has_the_null_input_and_a_key_hash_script() {
    let tx = Transaction::new_coinbase("addr".to_string(), 5, "hi".to_string());
    assert_eq!(tx.version, 1);
    assert_eq!(tx.lock_time, 0);
    assert!(tx.inputs[0].previous_output.is_null());
    assert_eq!(tx.inputs[0].previous_output.vout, 0xFFFFFFFF);
    assert_eq!(tx.inputs[0].sequence, 0xFFFFFFFF);
    assert_eq!(tx.inputs[0].signature_script, b"hi".to_vec());
    let script = &tx.outputs[0].script_pubkey;
    assert_eq!(script.len(), 25);
    assert_eq!(&script[0..3], &[0x76, 0xa9, 20]);
    assert_eq!(&script[3..23], &Hash256::hash(b"addr").as_bytes()[0..20]);
    assert_eq!(&script[23..25], &[0x88, 0xac]);
    assert_eq!(script, &Transaction::address_to_script_pubkey("addr"));
}

#[test]
fn encoding_is_field_by_field_little_endian() {
    let mut tx = Transaction::new();
    tx.version = 2;
    tx.lock_time = 0x0102030405060708;
    tx.add_input(OutPoint::new(Hash256::new([9u8; 32]), 7), vec![0xaa, 0xbb]);
    tx.outputs.push(TxOutput { value: 258, script_pubkey: vec![0x51] });
    let mut expected: Vec<u8> = Vec::new();
    expected.extend_from_slice(&2u32.to_le_bytes());
    expected.extend_from_slice(&1u32.to_le_bytes());
    expected.extend_from_slice(&[9u8; 32]);
    expected.extend_from_slice(&7u32.to_le_bytes());
    expected.extend_from_slice(&2u32.to_le_bytes());
    expected.extend_from_slice(&[0xaa, 0xbb]);
    expected.extend_from_slice(&0xFFFFFFFFu32.to_le_bytes());
    expected.extend_from_slice(&1u32.to_le_bytes());
    expected.extend_from_slice(&258u64.to_le_bytes());
    expected.extend_from_slice(&1u32.to_le_bytes());
    expected.push(0x51);
    expected.extend_from_slice(&0x0102030405060708u64.to_le_bytes());
    assert_eq!(tx.encode(), expected);
    assert_eq!(tx.size(), expected.len());
    assert_eq!(tx.hash(), Hash256::hash(&expected));
}

#[test]
fn signature_hash_leaves_scripts_out() {
    let mut tx = Transaction::new();
    tx.add_input(OutPoint::new(Hash256::new([9u8; 32]), 7), vec![0xaa, 0xbb]);
    tx.add_output(1000, "someone");
    let first = tx.get_signature_hash(0);
    tx.inputs[0].signature_script = vec![1, 2, 3, 4];
    assert_eq!(tx.get_signature_hash(0), first);
    assert_ne!(tx.hash(), first);
    let mut expected: Vec<u8> = Vec::new();
    expected.extend_from_slice(&1u32.to_le_bytes());
    expected.extend_from_slice(&1u32.to_le_bytes());
    expected.extend_from_slice(&[9u8; 32]);
    expected.extend_from_slice(&7u32.to_le_bytes());
    expected.extend_from_slice(&0u32.to_le_bytes());
    expected.extend_from_slice(&0xFFFFFFFFu32.to_le_bytes());
    expected.extend_from_slice(&1u32.to_le_bytes());
    expected.extend_from_slice(&1000u64.to_le_bytes());
    expected.extend_from_slice(&25u32.to_le_bytes());
    expected.extend_from_slice(&Transaction::address_to_script_pubkey("someone"));
    expected.extend_from_slice(&0u64.to_le_bytes());
    expected.extend_from_slice(&1u32.to_le_bytes());
    assert_eq!(first, Hash256::hash(&expected));
}

#[test]
fn output_totals_are_exact_or_held_at_the_top() {
    let mut tx = Transaction::new();
    assert_eq!(tx.total_output_value(), 0);
    tx.outputs.push(TxOutput { value: 10, script_pubkey: vec![] });
    tx.outputs.push(TxOutput { value: 32, script_pubkey: vec![] });
    assert_eq!(tx.total_output_value(), 42);
    assert_eq!(tx.checked_total_output_value(), Some(42));
    assert_eq!(tx.wide_total_output_value(), 42);
    tx.outputs.push(TxOutput { value: u64::MAX, script_pubkey: vec![] });
    assert_eq!(tx.total_output_value(), u64::MAX);
    assert_eq!(tx.checked_total_output_value(), None);
    assert_eq!(tx.wide_total_output_value(), u64::MAX as u128 + 42);
}

#[test]
fn only_one_null_input_makes_a_coinbase() {
    let mut tx = Transaction::new();
    assert!(!tx.is_coinbase());
    tx.add_input(OutPoint::new(Hash256::zero(), 0xFFFFFFFF), vec![1, 2]);
    assert!(tx.is_coinbase());
    tx.add_input(OutPoint::new(Hash256::zero(), 0xFFFFFFFF), vec![1, 2]);
    assert!(!tx.is_coinbase());
    let other = TxInput {
        previous_output: OutPoint::new(Hash256::zero(), 0),
        signature_script: vec![],
        sequence: 0,
    };
    assert!(!other.previous_output.is_null());
    assert!(!OutPoint::new(Hash256::new([1u8; 32]), 0xFFFFFFFF).is_null());
    let copy = tx.clone();
    assert_eq!(copy.encode(), tx.encode());
}
