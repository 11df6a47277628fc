use quantum_goldchain::crypto::keys::{KeyPair, PrivateKey};
use quantum_goldchain::error::{CryptoReason, MultisigReason, QtcError};
use quantum_goldchain::wallet::descriptor::{parse_u32, split_at_commas};
use quantum_goldchain::wallet::multisig::MultisigWallet;

/// The public keys of the private keys 1, 2 and 3, in hexadecimal.
const KEY_1: &str = "0279be667ef9dcbbac55a06295ce870b07029bfcdb2dce28d959f2815b16f81798";
const KEY_2: &str = "02c6047f9441ed7d6d3045406e95c07cd85c778e4b8cef3ca7abac09b95c709ee5";
const KEY_3: &str = "02f9308a019258c31049344f85f89d5229b531c845836f99b08601f113bce036f9";

fn key(n: u8) -> KeyPair {
    let mut secret = [0u8; 32];
    secret[31] = n;
    KeyPair::from_private_key(PrivateKey::from_bytes(&secret).unwrap()).unwrap()
}

fn group() -> MultisigWallet {
    MultisigWallet::create_2_of_3(
        "group".to_string(),
        key(1).public_key,
        key(2).public_key,
        key(3).public_key,
        1,
    )
    .unwrap()
}

fn refused(descriptor: &str) -> Option<QtcError> {
    MultisigWallet::from_descriptor("w".to_string(), descriptor, vec![]).err()
}

#[test]
fn descriptor_names_threshold_and_keys() {
    let descriptor = group().export_descriptor();
    assert_eq!(descriptor, format!("multi(2,{},{},{})", KEY_1, KEY_2, KEY_3));
    let single =
        MultisigWallet::new("one".to_string(), 1, vec![key(2).public_key], vec![0]).unwrap();
    assert_eq!(single.export_descriptor(), format!("multi(1,{})", KEY_2));
}

#[test]
fn descriptor_round_trip() {
    let wallet = group();
    let restored =
        MultisigWallet::from_descriptor("again".to_string(), &wallet.export_descriptor(), vec![0, 2])
            .unwrap();
    assert_eq!(restored.name, "again");
    assert_eq!(restored.our_key_indices, vec![0, 2]);
    assert_eq!(restored.required_signatures(), 2);
    assert_eq!(restored.total_keys(), 3);
    assert_eq!(restored.script.public_keys, wallet.script.public_keys);
    assert_eq!(restored.script.script, wallet.script.script);
    assert_eq!(restored.address, wallet.address);
    assert_eq!(restored.export_descriptor(), wallet.export_descriptor());
}

#[test]
fn descriptor_is_read_leniently_where_a_number_is() {
    let upper = KEY_1.to_uppercase();
    let wallet = MultisigWallet::from_descriptor(
        "w".to_string(),
        &format!("multi(+01,{},{})", upper, KEY_2),
        vec![1],
    )
    .unwrap();
    assert_eq!(wallet.required_signatures(), 1);
    assert_eq!(wallet.total_keys(), 2);
    assert_eq!(wallet.export_descriptor(), format!("multi(1,{},{})", KEY_1, KEY_2));
}

#[test]
fn descriptor_defects() {
    let frame = Some(QtcError::Multisig(MultisigReason::InvalidDescriptor));
    assert_eq!(refused(""), frame);
    assert_eq!(refused("multi("), frame);
    assert_eq!(refused("multi)"), frame);
    assert_eq!(refused(&format!("multy(1,{})", KEY_1)), frame);
    assert_eq!(refused(&format!("multi(1,{}", KEY_1)), frame);
    assert_eq!(refused(&format!(" multi(1,{})", KEY_1)), frame);
    assert_eq!(refused(&format!("multi(1,{}) ", KEY_1)), frame);

    let format = Some(QtcError::Multisig(MultisigReason::InvalidDescriptorFormat));
    assert_eq!(refused("multi()"), format);
    assert_eq!(refused("multi(2)"), format);
    assert_eq!(refused(&format!("multi({})", KEY_1)), format);

    let count = Some(QtcError::Multisig(MultisigReason::InvalidRequiredCount));
    assert_eq!(refused(&format!("multi(,{})", KEY_1)), count);
    assert_eq!(refused(&format!("multi(two,{})", KEY_1)), count);
    assert_eq!(refused(&format!("multi(-1,{})", KEY_1)), count);
    assert_eq!(refused(&format!("multi( 1,{})", KEY_1)), count);
    assert_eq!(refused(&format!("multi(4294967296,{})", KEY_1)), count);

    let hex = Some(QtcError::Multisig(MultisigReason::InvalidKeyHex));
    assert_eq!(refused("multi(1,)"), Some(QtcError::Crypto(CryptoReason::PublicKeyLength)));
    assert_eq!(refused("multi(1,xy)"), hex);
    assert_eq!(refused(&format!("multi(1,{}, {})", KEY_1, KEY_2)), hex);
    assert_eq!(refused(&format!("multi(1,{},abc)", KEY_1)), hex);
    assert_eq!(
        refused(&format!("multi(1,{},abcd)", KEY_1)),
        Some(QtcError::Crypto(CryptoReason::PublicKeyLength))
    );
    // 33 bytes that are no point of the curve.
    let off_curve = format!("02{}", "00".repeat(32));
    assert_eq!(
        refused(&format!("multi(1,{},{})", off_curve, "xy")),
        Some(QtcError::Crypto(CryptoReason::InvalidPublicKey))
    );

    // What is read must still be a group.
    assert_eq!(
        refused(&format!("multi(0,{})", KEY_1)),
        Some(QtcError::Multisig(MultisigReason::InvalidThreshold))
    );
    assert_eq!(
        refused(&format!("multi(3,{},{})", KEY_1, KEY_2)),
        Some(QtcError::Multisig(MultisigReason::InvalidThreshold))
    );
    assert_eq!(
        MultisigWallet::from_descriptor("w".to_string(), &format!("multi(1,{})", KEY_1), vec![1])
            .err(),
        Some(QtcError::Multisig(MultisigReason::InvalidKeyIndex))
    );
}

#[test]
fn texts_split_at_commas() {
    assert_eq!(split_at_commas(""), vec![""]);
    assert_eq!(split_at_commas("abc"), vec!["abc"]);
    assert_eq!(split_at_commas("a,b"), vec!["a", "b"]);
    assert_eq!(split_at_commas(",a,,b,"), vec!["", "a", "", "b", ""]);
    assert_eq!(split_at_commas("é,ü"), vec!["é", "ü"]);
}

#[test]
fn numbers_are_read_in_decimal() {
    assert_eq!(parse_u32("0"), Some(0));
    assert_eq!(parse_u32("42"), Some(42));
    assert_eq!(parse_u32("+42"), Some(42));
    assert_eq!(parse_u32("0042"), Some(42));
    assert_eq!(parse_u32("4294967295"), Some(u32::MAX));
    assert_eq!(parse_u32("4294967296"), None);
    assert_eq!(parse_u32("99999999999999999999999"), None);
    assert_eq!(parse_u32(""), None);
    assert_eq!(parse_u32("+"), None);
    assert_eq!(parse_u32("-1"), None);
    assert_eq!(parse_u32("++1"), None);
    assert_eq!(parse_u32("1 "), None);
    assert_eq!(parse_u32("1_000"), None);
    assert_eq!(parse_u32("١"), None);
    for text in ["7", "+7", "007", "x", "", "+", "4294967295", "4294967296"] {
        assert_eq!(parse_u32(text), text.parse::<u32>().ok());
    }
}
