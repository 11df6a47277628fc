use quantum_goldchain::chain::builder::TransactionBuilder;
use quantum_goldchain::chain::transaction::{OutPoint, Transaction};
use quantum_goldchain::chain::utxo::{select_largest_first, UtxoSet};
use quantum_goldchain::crypto::hash::Hash256;
use quantum_goldchain::crypto::keys::{KeyPair, PrivateKey, PublicKey};
use quantum_goldchain::crypto::signatures::Signature;
use quantum_goldchain::error::{CryptoReason, MultisigReason, QtcError, TxReason};
use quantum_goldchain::wallet::multisig::{
    bytes_lex_le, MultisigScript, MultisigUtils, MultisigWallet, SignatureCollector,
};

fn key(n: u8) -> KeyPair {
    let mut secret = [0u8; 32];
    secret[31] = n;
    KeyPair::from_private_key(PrivateKey::from_bytes(&secret).unwrap()).unwrap()
}

#[test]
fn test_2_of_3_multisig() -> Result<(), QtcError> {
    let key1 = KeyPair::new()?.public_key;
    let key2 = KeyPair::new()?.public_key;
    let key3 = KeyPair::new()?.public_key;

    let multisig = MultisigWallet::create_2_of_3("test_multisig".to_string(), key1, key2, key3, 0)?;

    assert_eq!(multisig.required_signatures(), 2);
    assert_eq!(multisig.total_keys(), 3);
    assert!(multisig.address.starts_with("qtc"));

    Ok(())
}

#[test]
fn test_multisig_script_creation() -> Result<(), QtcError> {
    let key1 = KeyPair::new()?.public_key;
    let key2 = KeyPair::new()?.public_key;

    let script = MultisigScript::new(2, vec![key1, key2])?;

    assert_eq!(script.required_signatures, 2);
    assert_eq!(script.total_keys, 2);
    assert!(!script.script.is_empty());

    Ok(())
}

#[test]
fn test_signature_collector() -> Result<(), QtcError> {
    let key1 = KeyPair::new()?;
    let key2 = KeyPair::new()?;
    let key3 = KeyPair::new()?;

    let script = MultisigScript::new(
        2,
        vec![key1.public_key.clone(), key2.public_key.clone(), key3.public_key.clone()],
    )?;

    let tx = Transaction::new();
    let mut collector = SignatureCollector::new(tx, 0, script);

    assert!(!collector.is_complete());
    assert_eq!(collector.get_missing_signatures(), 2);

    collector.sign_with_key(0, &key1.private_key)?;
    assert_eq!(collector.get_signatures_count(), 1);
    assert_eq!(collector.get_missing_signatures(), 1);

    collector.sign_with_key(1, &key2.private_key)?;
    assert!(collector.is_complete());
    assert_eq!(collector.get_missing_signatures(), 0);

    let _finalized_tx = collector.finalize_transaction()?;

    Ok(())
}

#[test]
fn test_multisig_validation() {
    assert!(MultisigUtils::validate_multisig_params(2, 3).is_ok());
    assert!(MultisigUtils::validate_multisig_params(0, 3).is_err());
    assert!(MultisigUtils::validate_multisig_params(4, 3).is_err());
    assert!(MultisigUtils::validate_multisig_params(1, 21).is_err());
}

#[test]
fn script_names_threshold_keys_and_count() {
    let keys: Vec<PublicKey> = vec![key(1).public_key, key(2).public_key, key(3).public_key];
    let script = MultisigScript::new(2, keys.clone()).unwrap();
    let mut expected = vec![0x52u8];
    for k in &keys {
        expected.push(33);
        expected.extend_from_slice(k.to_bytes());
    }
    expected.push(0x53);
    expected.push(0xae);
    assert_eq!(script.script, expected);
    assert_eq!(script.get_redeem_script(), expected.as_slice());
    assert_eq!(script.script.len(), 1 + 3 * 34 + 2);
    let address = script.to_address();
    assert!(address.starts_with("qtc3"));
    assert_eq!(script.clone().script, script.script);
    let signature = key(1).private_key.sign(&Hash256::zero()).unwrap();
    assert!(!script.verify_signature_count(&[signature]));
    assert!(script.verify_signature_count(&[signature, signature]));
    assert_eq!(
        MultisigScript::new(0, keys.clone()).err(),
        Some(QtcError::Multisig(MultisigReason::InvalidThreshold))
    );
    assert_eq!(
        MultisigScript::new(4, keys.clone()).err(),
        Some(QtcError::Multisig(MultisigReason::InvalidThreshold))
    );
    let many: Vec<PublicKey> = (1..=21u8).map(|n| key(n).public_key).collect();
    assert_eq!(
        MultisigScript::new(1, many).err(),
        Some(QtcError::Multisig(MultisigReason::TooManyKeys))
    );
    assert_eq!(
        MultisigUtils::validate_multisig_params(1, 21),
        Err(QtcError::Multisig(MultisigReason::TooManyKeys))
    );
    assert_eq!(
        MultisigUtils::validate_multisig_params(0, 21),
        Err(QtcError::Multisig(MultisigReason::InvalidThreshold))
    );
}

#[test]
fn wallets_check_their_own_indices() {
    let keys: Vec<PublicKey> = (1..=5u8).map(|n| key(n).public_key).collect();
    let wallet =
        MultisigWallet::with_timestamp("w".to_string(), 3, keys.clone(), vec![0, 4], 77).unwrap();
    assert_eq!(wallet.created_at, 77);
    assert_eq!(wallet.name, "w");
    assert!(wallet.can_sign());
    assert_eq!(wallet.get_public_keys(), keys.as_slice());
    assert_eq!(wallet.address, wallet.script.to_address());
    assert_eq!(
        MultisigWallet::with_timestamp("w".to_string(), 3, keys.clone(), vec![0, 5], 77).err(),
        Some(QtcError::Multisig(MultisigReason::InvalidKeyIndex))
    );
    assert_eq!(
        MultisigWallet::create_3_of_5("w".to_string(), keys[..4].to_vec(), vec![]).err(),
        Some(QtcError::Multisig(MultisigReason::NeedFiveKeys))
    );
    let watch = MultisigWallet::create_3_of_5("w".to_string(), keys.clone(), vec![]).unwrap();
    assert!(!watch.can_sign());
    assert_eq!(watch.required_signatures(), 3);
    assert_eq!(watch.total_keys(), 5);
    assert_eq!(
        MultisigWallet::create_2_of_3(
            "w".to_string(),
            keys[0].clone(),
            keys[1].clone(),
            keys[2].clone(),
            3
        )
        .err(),
        Some(QtcError::Multisig(MultisigReason::InvalidKeyIndex))
    );
}

#[test]
fn signatures_are_collected_in_the_order_of_the_signers() {
    let pairs = [key(1), key(2), key(3)];
    let keys: Vec<PublicKey> = pairs.iter().map(|p| p.public_key.clone()).collect();
    let script = MultisigScript::new(2, keys).unwrap();
    let mut tx = Transaction::new();
    tx.add_input(OutPoint::new(Hash256::new([1u8; 32]), 0), vec![]);
    tx.add_output(1000, "someone");
    let digest = tx.get_signature_hash(0);
    let mut collector = SignatureCollector::new(tx.clone(), 0, script.clone());
    assert_eq!(
        collector.finalize_transaction().err(),
        Some(QtcError::Multisig(MultisigReason::NotEnoughSignatures { have: 0, need: 2 }))
    );
    let sig = |n: usize| pairs[n].private_key.sign(&digest).unwrap();
    assert_eq!(
        collector.add_signature(3, sig(0)),
        Err(QtcError::Multisig(MultisigReason::InvalidSignerIndex))
    );
    assert_eq!(
        collector.add_signature(1, sig(0)),
        Err(QtcError::Multisig(MultisigReason::InvalidSignature))
    );
    assert_eq!(
        collector.add_signature(1, Signature::from_bytes(&[0xffu8; 64]).unwrap()),
        Err(QtcError::Crypto(CryptoReason::InvalidSignature))
    );
    assert_eq!(
        collector.sign_with_key(1, &pairs[0].private_key),
        Err(QtcError::Multisig(MultisigReason::KeyMismatch))
    );
    assert_eq!(collector.get_signatures_count(), 0);
    assert_eq!(collector.add_signature(2, sig(2)), Ok(()));
    assert_eq!(collector.add_signature(0, sig(0)), Ok(()));
    assert_eq!(collector.add_signature(2, sig(2)), Ok(()));
    assert_eq!(collector.get_signatures_count(), 2);
    assert!(collector.has_signature_of(0));
    assert!(!collector.has_signature_of(1));
    let exported = collector.export_partial_signatures();
    assert_eq!(exported, vec![(0, sig(0)), (2, sig(2))]);

    let done = collector.finalize_transaction().unwrap();
    let mut expected = vec![0u8];
    for n in [0usize, 2] {
        expected.push(65);
        expected.extend_from_slice(&sig(n).to_bytes());
    }
    expected.push(script.script.len() as u8);
    expected.extend_from_slice(&script.script);
    assert_eq!(done.inputs[0].signature_script, expected);
    assert_eq!(done.outputs[0].value, 1000);
    assert_eq!(done.get_signature_hash(0), digest);

    let mut other = SignatureCollector::new(tx.clone(), 0, script.clone());
    assert_eq!(other.add_signature(1, sig(1)), Ok(()));
    assert_eq!(other.import_partial_signatures(vec![(2, sig(2)), (1, sig(1)), (0, sig(0))]), Ok(2));
    assert_eq!(other.get_signatures_count(), 3);
    // The first two in the order of the signers are used.
    let all = other.finalize_transaction().unwrap();
    assert_eq!(&all.inputs[0].signature_script[1..1 + 66], &{
        let mut first = vec![65u8];
        first.extend_from_slice(&sig(0).to_bytes());
        first
    }[..]);
    assert!(other.import_partial_signatures(vec![(7, sig(0))]).is_err());

    let psbt = collector.to_psbt().unwrap();
    assert_eq!(&psbt[..5], b"psbt\xff");
    let encoded = tx.encode();
    assert_eq!(&psbt[5..9], &(encoded.len() as u32).to_le_bytes());
    assert_eq!(&psbt[9..9 + encoded.len()], encoded.as_slice());
    assert_eq!(psbt.len(), 9 + encoded.len() + 2 * 67);
    assert_eq!(
        SignatureCollector::from_psbt(&psbt, script.clone()).err(),
        Some(QtcError::Multisig(MultisigReason::PsbtNotSupported))
    );
    assert_eq!(
        SignatureCollector::from_psbt(b"nope", script.clone()).err(),
        Some(QtcError::Multisig(MultisigReason::InvalidPsbt))
    );
    // An input index the transaction does not have leaves it as it is.
    let mut wide = SignatureCollector::new(tx.clone(), 5, script);
    wide.sign_with_key(0, &pairs[0].private_key).unwrap();
    wide.sign_with_key(1, &pairs[1].private_key).unwrap();
    assert_eq!(wide.finalize_transaction().unwrap().encode(), tx.encode());
}

#[test]
fn keys_sort_byte_by_byte() {
    let keys: Vec<PublicKey> = (1..=6u8).map(|n| key(n).public_key).collect();
    let sorted = MultisigUtils::sort_public_keys(keys.clone());
    assert_eq!(sorted.len(), 6);
    for pair in sorted.windows(2) {
        assert!(pair[0].to_bytes() <= pair[1].to_bytes());
    }
    let mut expected = keys.clone();
    expected.sort_by(|a, b| a.to_bytes().cmp(b.to_bytes()));
    assert_eq!(sorted, expected);
    assert!(bytes_lex_le(b"", b"a"));
    assert!(bytes_lex_le(b"a", b"a"));
    assert!(bytes_lex_le(b"a", b"ab"));
    assert!(!bytes_lex_le(b"ab", b"a"));
    assert!(bytes_lex_le(b"ab", b"b"));
    assert!(!bytes_lex_le(b"b", b"ab"));
    assert_eq!(MultisigUtils::estimate_multisig_size(2, 3), 10 + 180 + 1 + 146 + 1 + 99 + 2 + 68);
    assert_eq!(MultisigUtils::calculate_multisig_fee(2, 3, 10), 5070);
    assert_eq!(MultisigUtils::calculate_multisig_fee(2, 3, u64::MAX), u64::MAX);
}

#[test]
fn the_largest_outputs_are_spent_first() {
    let h = |n: u8| Hash256::new([n; 32]);
    let candidates = vec![(h(1), 0, 30), (h(2), 0, 70), (h(3), 0, 50), (h(4), 0, 70), (h(5), 0, 10)];
    assert_eq!(
        select_largest_first(candidates.clone(), 100),
        Ok((140, vec![(h(2), 0, 70), (h(4), 0, 70)]))
    );
    assert_eq!(select_largest_first(candidates.clone(), 70), Ok((70, vec![(h(2), 0, 70)])));
    assert_eq!(select_largest_first(candidates.clone(), 0), Ok((70, vec![(h(2), 0, 70)])));
    assert_eq!(
        select_largest_first(candidates.clone(), 141),
        Ok((190, vec![(h(2), 0, 70), (h(4), 0, 70), (h(3), 0, 50)]))
    );
    assert_eq!(
        select_largest_first(candidates.clone(), 1000),
        Ok((230, vec![(h(2), 0, 70), (h(4), 0, 70), (h(3), 0, 50), (h(1), 0, 30), (h(5), 0, 10)]))
    );
    assert_eq!(select_largest_first(vec![], 5), Ok((0, vec![])));
    assert_eq!(
        select_largest_first(vec![(h(1), 0, u64::MAX), (h(2), 0, 1)], u64::MAX),
        Ok((u64::MAX, vec![(h(1), 0, u64::MAX)]))
    );
    assert_eq!(
        select_largest_first(vec![(h(1), 0, u64::MAX - 1), (h(2), 0, 2)], u64::MAX),
        Err(QtcError::Transaction(TxReason::ValueOverflow))
    );

    let mut set = UtxoSet::new();
    let mut tx = Transaction::new_coinbase("a".to_string(), 30, "xx".to_string());
    tx.add_output(70, "a");
    tx.add_output(50, "b");
    set.apply_transaction(&tx, 1).unwrap();
    let (worth, selected) = set.find_spendable_outputs("a", 80).unwrap();
    assert_eq!(worth, 100);
    assert_eq!(selected.iter().map(|s| s.2).collect::<Vec<u64>>(), vec![70, 30]);
    assert_eq!(set.find_spendable_outputs("nobody", 80), Ok((0, vec![])));
}

#[test]
fn a_transaction_is_built_from_the_largest_outputs() {
    let h = |n: u8| Hash256::new([n; 32]);
    let candidates = vec![(h(1), 0, 30_000), (h(2), 1, 70_000), (h(3), 2, 50_000)];
    let mut builder = TransactionBuilder::new(candidates.clone(), "change".to_string());
    assert_eq!(builder.build().err(), Some(QtcError::Transaction(TxReason::NoOutputs)));
    builder.add_output("payee", 60_000).unwrap();
    // Estimated: 306 + 9 + 25 = 340 bytes, a fee of 340 at the default rate.
    let tx = builder.build().unwrap();
    assert_eq!(tx.version, 1);
    assert_eq!(tx.lock_time, 0);
    assert_eq!(tx.inputs.len(), 1);
    assert_eq!(tx.inputs[0].previous_output, OutPoint::new(h(2), 1));
    assert!(tx.inputs[0].signature_script.is_empty());
    assert_eq!(tx.inputs[0].sequence, 0xFFFFFFFF);
    assert_eq!(tx.outputs.len(), 2);
    assert_eq!(tx.outputs[0].value, 60_000);
    assert_eq!(tx.outputs[0].script_pubkey, Transaction::address_to_script_pubkey("payee"));
    // One input and one output encode to 101 bytes: the fee is 101.
    assert_eq!(tx.outputs[1].value, 70_000 - 60_000 - 101);
    assert_eq!(tx.outputs[1].script_pubkey, Transaction::address_to_script_pubkey("change"));

    // No change where it would be dust.
    let mut tight = TransactionBuilder::new(candidates.clone(), "change".to_string());
    tight.add_output("payee", 69_500).unwrap();
    let tx = tight.build().unwrap();
    assert_eq!(tx.inputs.len(), 1);
    assert_eq!(tx.outputs.len(), 1);

    let mut two = TransactionBuilder::new(candidates.clone(), "change".to_string());
    two.add_output("payee", 60_000).unwrap();
    two.add_output("other", 50_000).unwrap();
    two.set_fee_rate(2000);
    let tx = two.build().unwrap();
    assert_eq!(tx.inputs.len(), 2);
    assert_eq!(tx.inputs[1].previous_output, OutPoint::new(h(3), 2));
    let size = 4 + 4 + 2 * 44 + 4 + 2 * 37 + 8;
    assert_eq!(tx.outputs[2].value, 120_000 - 110_000 - 2 * size);

    let mut poor = TransactionBuilder::new(candidates, "change".to_string());
    poor.add_output("payee", 150_000).unwrap();
    assert_eq!(
        poor.build().err(),
        Some(QtcError::Transaction(TxReason::InsufficientFunds {
            required: 150_000 + 340,
            available: 150_000
        }))
    );
    let mut huge = TransactionBuilder::new(vec![(h(1), 0, u64::MAX), (h(2), 0, 1)], "c".to_string());
    huge.add_output("payee", 5).unwrap();
    assert_eq!(huge.build().err(), Some(QtcError::Transaction(TxReason::ValueOverflow)));
}
