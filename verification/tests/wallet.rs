use quantum_goldchain::chain::block::Block;
use quantum_goldchain::chain::blockchain::{Blockchain, ChainParams, GENESIS_TIMESTAMP};
use quantum_goldchain::chain::transaction::{OutPoint, Transaction};
use quantum_goldchain::crypto::hash::Hashable;
use quantum_goldchain::crypto::keys::{KeyPair, PrivateKey, PublicKey};
use quantum_goldchain::crypto::pqc::PqcAddress;
use quantum_goldchain::crypto::signatures::Signature;
use quantum_goldchain::error::{CryptoReason, QtcError, TxReason, WalletReason};
use quantum_goldchain::mining::miner::{build_template, mine_range};
use quantum_goldchain::mining::randomx::RandomXMiner;
use quantum_goldchain::storage::database::{wallet_address_key, WalletAddressData};
use quantum_goldchain::wallet::bip39::Mnemonic;
use quantum_goldchain::wallet::wallet::{
    append_decimal, path_string, AddressType, Wallet, WalletType,
};

const ABANDON: &str =
    "abandon abandon abandon abandon abandon abandon abandon abandon abandon abandon abandon about";

const REWARD: u64 = 2_710_000_000;

/// The first addresses of the receiving chain of the sentence above.
const RECEIVING: [&str; 13] = [
    "qtc1LqBGSKuX5yYUonjxT5qGfpUsXKYYWeabA",
    "qtc1Ak8PffB2meyfYnbXZR9EGfLfFZVpzJvQP",
    "qtc1MNF5RSaabFwcbtJirJwKnDytsXXEsVsNb",
    "qtc1MVGa13XFvvpKGZdX389iU8b3qwtmAyrsJ",
    "qtc1Gka4JdwhLxRwXaC6oLNH4YuEogeeSwqW7",
    "qtc19a7HGg32ecPQo49rDeM2NSFJHPqrwSJto",
    "qtc1GuMEkKyqqRz3jKZJPNxZNoJv72rRDm88o",
    "qtc1B1wDxGPrfqWSi4qvQvaPdunD6kon3CeDG",
    "qtc1BMZTqDtNogSEs1oZoGxRqfR6jS2tVxvHX",
    "qtc1DUrqK4hj6vNNUTWXADpbqyjVWUYFD7xTZ",
    "qtc146emAmGumhnsT9nPCALU2JWeS4koxfFRB",
    "qtc1Jvsixwb9y4WTn9zEbhb7ykhcwZ5LAjBFy",
    "qtc144gUAoVG1aRpYxQMySn3zZtPVYPiJuYYq",
];

/// The key pair of the private key 1.
fn first_keypair() -> KeyPair {
    let mut bytes = [0u8; 32];
    bytes[31] = 1;
    KeyPair::from_private_key(PrivateKey::from_bytes(&bytes).unwrap()).unwrap()
}

fn simple_wallet() -> Wallet {
    Wallet::with_keypair("simple".to_string(), &first_keypair(), 1_700_000_000)
}

fn hd_wallet() -> Wallet {
    Wallet::from_mnemonic_phrase("hd".to_string(), ABANDON, "").unwrap()
}

fn pqc_address(tag: u8) -> PqcAddress {
    PqcAddress {
        signing_public_key: vec![tag; 4],
        encryption_public_key: vec![tag + 1; 3],
        address: format!("qtc-pqc{}", tag),
    }
}

/// A development chain with `blocks` blocks whose rewards go to `address`.
fn chain_paying(address: &str, blocks: u64) -> Blockchain {
    let mut chain = Blockchain::with_params(&ChainParams::development());
    let hasher = RandomXMiner::new(chain.pow_seed().as_bytes(), Some(1), false).unwrap();
    for _ in 0..blocks {
        let time = GENESIS_TIMESTAMP + (chain.height() + 1) * 450;
        let template = build_template(&chain, address, format!("block at {}", time), time).unwrap();
        let block = Block::with_timestamp(
            template.header.previous_hash,
            template.transactions.clone(),
            template.header.difficulty,
            template.header.height,
            template.header.timestamp,
        );
        let mined = mine_range(block, &hasher, 0, 10_000_000).expect("a nonce within the range");
        assert_eq!(chain.add_block_at(mined.block, time), Ok(()));
    }
    chain
}

#[test]
fn test_simple_wallet_creation() -> Result<(), QtcError> {
    let wallet = Wallet::new_simple("test_wallet".to_string())?;

    assert_eq!(wallet.info.wallet_type, WalletType::Simple);
    assert_eq!(wallet.addresses.len(), 1);

    Ok(())
}

#[test]
fn test_hd_wallet_creation() -> Result<(), QtcError> {
    let mnemonic = Mnemonic::new(12)?;
    let wallet = Wallet::new_hd("test_hd_wallet".to_string(), &mnemonic, "")?;

    assert!(matches!(wallet.info.wallet_type, WalletType::HD));
    assert!(wallet.addresses.len() > 0);

    Ok(())
}

#[test]
fn simple_wallet_holds_its_key() {
    let wallet = simple_wallet();
    assert_eq!(wallet.info.name, "simple");
    assert_eq!(wallet.info.created_at, 1_700_000_000);
    assert_eq!(wallet.info.last_used, 0);
    assert!(!wallet.info.is_encrypted);
    assert_eq!(wallet.info.balance, 0);
    assert_eq!(wallet.info.address_count, 1);
    assert!(wallet.hd_wallet.is_none());
    let entry = &wallet.addresses[0];
    assert_eq!(entry.address, "qtc1BgGZ9tcN4rm9KBzDn7KprQz87SZ26SAMH");
    assert_eq!(entry.private_key.as_ref().unwrap()[31], 1);
    assert_eq!(
        hex::encode(&entry.public_key),
        "0279be667ef9dcbbac55a06295ce870b07029bfcdb2dce28d959f2815b16f81798"
    );
    assert_eq!(entry.derivation_path, None);
    assert!(!entry.is_change);
    assert!(!entry.used);
    assert_eq!(entry.address_type, AddressType::Classic);
    assert!(entry.pqc_data.is_none());
    assert_eq!(wallet.get_addresses(), vec![entry.address.clone()]);
    assert_eq!(wallet.find_address(&entry.address), Some(0));
    assert_eq!(wallet.find_address("elsewhere"), None);
    let fresh = Wallet::new_simple("fresh".to_string()).unwrap();
    let held = &fresh.addresses[0];
    let key = PrivateKey::from_bytes(held.private_key.as_ref().unwrap()).unwrap();
    assert_eq!(key.public_key().unwrap().to_bytes(), &held.public_key[..]);
    assert_eq!(key.public_key().unwrap().to_address(), held.address);
    let info = fresh.info.clone();
    assert_eq!(info.name, "fresh");
    assert_eq!(info.address_count, 1);
}

#[test]
fn hd_wallet_starts_with_ten_receiving_addresses() {
    let wallet = hd_wallet();
    assert_eq!(wallet.info.wallet_type, WalletType::HD);
    assert_eq!(wallet.info.address_count, 10);
    assert_eq!(wallet.get_addresses(), RECEIVING[..10].to_vec());
    let hd = wallet.hd_wallet.as_ref().unwrap();
    assert_eq!(hd.next_external_index, 10);
    assert_eq!(hd.next_internal_index, 0);
    let first = &wallet.addresses[0];
    assert_eq!(
        hex::encode(first.private_key.as_ref().unwrap()),
        "e284129cc0922579a535bbf4d1a3b25773090d28c909bc0fed73b5e0222cc372"
    );
    assert_eq!(
        hex::encode(&first.public_key),
        "03aaeb52dd7494c361049de67cc680e83ebcbbbdbeb13637d92cd845f70308af5e"
    );
    assert_eq!(first.derivation_path.as_deref(), Some("m/44'/0'/0'/0/0"));
    assert_eq!(wallet.addresses[9].derivation_path.as_deref(), Some("m/44'/0'/0'/0/9"));
    assert!(!first.is_change && !first.used);
    assert_eq!(first.address_type, AddressType::Classic);
    assert_eq!(
        Wallet::from_mnemonic_phrase("w".to_string(), "no sentence", "").err(),
        Some(QtcError::Wallet(WalletReason::InvalidPhrase))
    );
}

#[test]
fn generating_addresses_moves_the_receiving_chain() {
    let mut wallet = hd_wallet();
    assert_eq!(wallet.generate_addresses(3).unwrap(), RECEIVING[10..].to_vec());
    assert_eq!(wallet.info.address_count, 13);
    assert_eq!(wallet.addresses.len(), 13);
    assert_eq!(wallet.get_addresses(), RECEIVING.to_vec());
    assert_eq!(wallet.addresses[12].derivation_path.as_deref(), Some("m/44'/0'/0'/0/12"));
    assert_eq!(wallet.hd_wallet.as_ref().unwrap().next_external_index, 13);
    assert_eq!(wallet.generate_addresses(0).unwrap(), Vec::<String>::new());
    assert_eq!(wallet.info.address_count, 13);

    // A wallet that cannot count that many more stays as it was.
    wallet.info.address_count = u32::MAX - 1;
    assert_eq!(
        wallet.generate_addresses(2).err(),
        Some(QtcError::Wallet(WalletReason::TooManyAddresses))
    );
    assert_eq!(wallet.addresses.len(), 13);
    assert_eq!(wallet.hd_wallet.as_ref().unwrap().next_external_index, 13);
    assert_eq!(wallet.generate_addresses(1).unwrap().len(), 1);
    assert_eq!(wallet.info.address_count, u32::MAX);

    // The chain ends below 2^31: the addresses before the end stay.
    let mut wallet = hd_wallet();
    wallet.hd_wallet.as_mut().unwrap().next_external_index = 0x7fff_ffff;
    assert_eq!(
        wallet.generate_addresses(2).err(),
        Some(QtcError::Wallet(WalletReason::InvalidChildNumber))
    );
    assert_eq!(wallet.addresses.len(), 11);
    assert_eq!(wallet.info.address_count, 10);
    assert_eq!(wallet.hd_wallet.as_ref().unwrap().next_external_index, 0x8000_0000);
    assert_eq!(
        wallet.addresses[10].derivation_path.as_deref(),
        Some("m/44'/0'/0'/0/2147483647")
    );

    let mut simple = simple_wallet();
    assert_eq!(
        simple.generate_addresses(1).err(),
        Some(QtcError::Wallet(WalletReason::NotHierarchical))
    );
    assert_eq!(simple.addresses.len(), 1);
}

#[test]
fn change_addresses() {
    let mut wallet = hd_wallet();
    assert_eq!(wallet.get_change_address().unwrap(), RECEIVING[0]);
    assert_eq!(
        wallet.get_change_address_mut().unwrap(),
        "qtc1J3J6EvPrv8q6AC3VCjWV45Uf3nssNMRtH"
    );
    assert_eq!(wallet.addresses.len(), 11);
    let entry = &wallet.addresses[10];
    assert!(entry.is_change);
    assert_eq!(entry.derivation_path.as_deref(), Some("m/44'/0'/0'/1/0"));
    assert_eq!(
        hex::encode(entry.private_key.as_ref().unwrap()),
        "78df181d8d74216a5c1398689b35aada58cc42e5f056b6126c1c4f6e236294c7"
    );
    assert_eq!(wallet.info.address_count, 10);
    let hd = wallet.hd_wallet.as_ref().unwrap();
    assert_eq!((hd.next_external_index, hd.next_internal_index), (10, 1));
    assert_eq!(
        wallet.get_change_address_mut().unwrap(),
        "qtc13vKxXzHXXd8HquAYdpkJoi9ULVXUgfpS5"
    );

    let mut simple = simple_wallet();
    assert_eq!(
        simple.get_change_address_mut().unwrap(),
        "qtc1BgGZ9tcN4rm9KBzDn7KprQz87SZ26SAMH"
    );
    assert_eq!(simple.addresses.len(), 1);
    simple.addresses.clear();
    let none = Some(QtcError::Wallet(WalletReason::NoAddresses));
    assert_eq!(simple.get_change_address().err(), none);
    assert_eq!(simple.get_change_address_mut().err(), none);
}

#[test]
fn unused_addresses_and_marking() {
    let mut wallet = hd_wallet();
    wallet.get_change_address_mut().unwrap();
    assert_eq!(wallet.get_unused_address().unwrap(), RECEIVING[0]);
    assert_eq!(wallet.mark_address_used(RECEIVING[0]), Ok(()));
    assert!(wallet.addresses[0].used);
    assert_eq!(wallet.addresses[0].address, RECEIVING[0]);
    assert!(wallet.addresses[0].private_key.is_some());
    assert!(!wallet.addresses[1].used);
    assert_eq!(wallet.get_unused_address().unwrap(), RECEIVING[1]);
    assert_eq!(wallet.mark_address_used("elsewhere"), Ok(()));
    assert_eq!(wallet.addresses.len(), 11);
    for address in &RECEIVING[1..10] {
        wallet.mark_address_used(address).unwrap();
    }
    // Only the change address is left, and that does not receive.
    assert_eq!(wallet.get_unused_address(), None);
}

#[test]
fn private_keys_go_out_and_come_in() {
    let hd = hd_wallet();
    let wif = hd.export_private_key(RECEIVING[0]).unwrap();
    assert_eq!(wif, "5KY3dHRWNnFkBJaTnmUTaR1oqs9tU9goQbG19FSNLSo5oAxLokG");
    assert_eq!(
        hd.export_private_key("elsewhere").err(),
        Some(QtcError::Wallet(WalletReason::AddressNotFound))
    );

    let mut wallet = simple_wallet();
    assert_eq!(
        wallet.export_private_key("qtc1BgGZ9tcN4rm9KBzDn7KprQz87SZ26SAMH").unwrap(),
        "5HpHagT65TZzG1PH3CSu63k8DbpvD8s5ip4nEB3kEsreAnchuDf"
    );
    assert_eq!(wallet.import_private_key(&wif).unwrap(), RECEIVING[0]);
    assert_eq!(wallet.addresses.len(), 2);
    assert_eq!(wallet.info.address_count, 2);
    let entry = &wallet.addresses[1];
    assert_eq!(entry.address, RECEIVING[0]);
    assert_eq!(entry.derivation_path, None);
    assert_eq!(
        hex::encode(&entry.public_key),
        "03aaeb52dd7494c361049de67cc680e83ebcbbbdbeb13637d92cd845f70308af5e"
    );
    // The same key again takes the place of its entry and is counted.
    wallet.mark_address_used(RECEIVING[0]).unwrap();
    assert_eq!(wallet.import_private_key(&wif).unwrap(), RECEIVING[0]);
    assert_eq!(wallet.addresses.len(), 2);
    assert!(!wallet.addresses[1].used);
    assert_eq!(wallet.info.address_count, 3);

    assert_eq!(
        wallet.import_private_key("0OIl").err(),
        Some(QtcError::Crypto(CryptoReason::WifEncoding))
    );
    wallet.info.address_count = u32::MAX;
    assert_eq!(
        wallet.import_private_key(&wif).err(),
        Some(QtcError::Wallet(WalletReason::TooManyAddresses))
    );
    assert_eq!(wallet.addresses.len(), 2);

    wallet.addresses[0].private_key = None;
    assert_eq!(
        wallet.export_private_key("qtc1BgGZ9tcN4rm9KBzDn7KprQz87SZ26SAMH").err(),
        Some(QtcError::Wallet(WalletReason::NoPrivateKey))
    );
    wallet.addresses[0].private_key = Some(vec![1, 2, 3]);
    assert_eq!(
        wallet.export_private_key("qtc1BgGZ9tcN4rm9KBzDn7KprQz87SZ26SAMH").err(),
        Some(QtcError::Crypto(CryptoReason::PrivateKeyLength))
    );
    wallet.addresses[0].private_key = Some(vec![0; 32]);
    assert_eq!(
        wallet.export_private_key("qtc1BgGZ9tcN4rm9KBzDn7KprQz87SZ26SAMH").err(),
        Some(QtcError::Crypto(CryptoReason::InvalidPrivateKey))
    );
}

#[test]
fn wallet_balances_follow_the_chain() {
    let mut wallet = hd_wallet();
    let empty = Blockchain::with_params(&ChainParams::development());
    assert_eq!(wallet.get_balance(&empty), Ok(0));
    let chain = chain_paying(RECEIVING[1], 2);
    assert_eq!(wallet.get_balance(&chain), Ok(2 * REWARD));
    assert_eq!(wallet.get_address_balance(&chain, RECEIVING[1]), Ok(2 * REWARD));
    assert_eq!(wallet.get_address_balance(&chain, RECEIVING[0]), Ok(0));
    assert_eq!(
        wallet.get_address_balance(&chain, "elsewhere"),
        Err(QtcError::Wallet(WalletReason::AddressNotFound))
    );
    let spendable = wallet.spendable_outputs(&chain);
    assert_eq!(spendable.len(), 2);
    assert_eq!(spendable, chain.get_utxos(RECEIVING[1]).unwrap());
    assert_eq!(simple_wallet().get_balance(&chain), Ok(0));
    assert_eq!(wallet.get_transaction_history().unwrap().len(), 0);
    // An address held twice counts twice.
    let again = wallet.addresses[1].clone();
    assert_eq!(again.address, RECEIVING[1]);
    wallet.addresses.push(again);
    assert_eq!(wallet.get_balance(&chain), Ok(4 * REWARD));
}

#[test]
fn wallet_creates_a_payment_with_change() {
    let wallet = hd_wallet();
    let chain = chain_paying(RECEIVING[2], 1);
    let funding = chain.get_utxos(RECEIVING[2]).unwrap();
    assert_eq!(funding.len(), 1);

    let tx = wallet.create_transaction(&chain, "payee", 1_000_000_000, 1000).unwrap();
    assert_eq!(tx.version, 1);
    assert_eq!(tx.lock_time, 0);
    assert_eq!(tx.inputs.len(), 1);
    assert_eq!(tx.inputs[0].previous_output, OutPoint::new(funding[0].0, funding[0].1));
    assert!(tx.inputs[0].signature_script.is_empty());
    assert_eq!(tx.outputs.len(), 2);
    assert_eq!(tx.outputs[0].value, 1_000_000_000);
    assert_eq!(tx.outputs[0].script_pubkey, Transaction::address_to_script_pubkey("payee"));
    // The fee is for the 101 bytes of the transaction without its change.
    assert_eq!(tx.outputs[1].value, REWARD - 1_000_000_000 - 101);
    assert_eq!(
        tx.outputs[1].script_pubkey,
        Transaction::address_to_script_pubkey(RECEIVING[0])
    );

    // What is needed counts the fee for the estimated 340 bytes.
    assert_eq!(
        wallet.create_transaction(&chain, "payee", REWARD - 339, 1000).err(),
        Some(QtcError::Transaction(TxReason::InsufficientFunds {
            required: REWARD + 1,
            available: REWARD,
        }))
    );
    let all = wallet.create_transaction(&chain, "payee", REWARD - 340, 1000).unwrap();
    assert_eq!(all.outputs.len(), 1);
    assert_eq!(
        wallet.create_transaction(&chain, "payee", u64::MAX, 1000).err(),
        Some(QtcError::Transaction(TxReason::ValueOverflow))
    );
    assert_eq!(
        simple_wallet().create_transaction(&chain, "payee", 1, 1000).err(),
        Some(QtcError::Transaction(TxReason::InsufficientFunds { required: 341, available: 0 }))
    );
}

#[test]
fn wallet_signs_every_input() {
    let wallet = simple_wallet();
    let key = PublicKey::from_bytes(&wallet.addresses[0].public_key).unwrap();
    let mut tx = Transaction::new();
    tx.add_input(OutPoint::new(Transaction::new().hash(), 0), vec![]);
    tx.add_input(OutPoint::new(Transaction::new().hash(), 1), vec![9, 9]);
    tx.add_output(5_000, "payee");
    let unsigned = tx.clone();
    let digest = tx.get_signature_hash(0);

    assert_eq!(wallet.sign_transaction(&mut tx), Ok(()));
    assert_eq!(tx.outputs.len(), 1);
    assert_eq!(tx.outputs[0].value, 5_000);
    assert_eq!(tx.outputs[0].script_pubkey, unsigned.outputs[0].script_pubkey);
    assert_eq!(tx.inputs.len(), 2);
    for (signed, plain) in tx.inputs.iter().zip(unsigned.inputs.iter()) {
        assert_eq!(signed.previous_output, plain.previous_output);
        assert_eq!(signed.sequence, plain.sequence);
        let script = &signed.signature_script;
        assert_eq!(script.len(), 65 + 33);
        assert_eq!(script[64], 0);
        assert_eq!(&script[65..], &wallet.addresses[0].public_key[..]);
        let signature = Signature::from_bytes(&script[..65]).unwrap();
        assert_eq!(key.verify(&digest, &signature), Ok(true));
    }
    assert_eq!(tx.inputs[0].signature_script, tx.inputs[1].signature_script);
    // Signing does not change what is signed.
    assert_eq!(tx.get_signature_hash(0), digest);

    // Without inputs or without a private key nothing is done.
    let mut bare = Transaction::new();
    bare.add_output(1, "payee");
    assert_eq!(wallet.sign_transaction(&mut bare), Ok(()));
    assert!(bare.inputs.is_empty());
    let watching =
        Wallet::new_pqc("pqc".to_string(), &pqc_address(1), vec![1], vec![2]).unwrap();
    let mut untouched = unsigned.clone();
    assert_eq!(watching.sign_transaction(&mut untouched), Ok(()));
    assert_eq!(untouched.encode(), unsigned.encode());

    // A key that is refused leaves the transaction as it was.
    let mut broken = simple_wallet();
    broken.addresses[0].private_key = Some(vec![0; 32]);
    let mut untouched = unsigned.clone();
    assert_eq!(
        broken.sign_transaction(&mut untouched),
        Err(QtcError::Crypto(CryptoReason::InvalidPrivateKey))
    );
    assert_eq!(untouched.encode(), unsigned.encode());
    broken.addresses[0].private_key = Some(vec![1; 31]);
    assert_eq!(
        broken.sign_transaction(&mut untouched),
        Err(QtcError::Crypto(CryptoReason::PrivateKeyLength))
    );
}

#[test]
fn post_quantum_addresses() {
    let address = pqc_address(1);
    let mut wallet =
        Wallet::new_pqc("pqc".to_string(), &address, vec![10, 11], vec![12]).unwrap();
    assert_eq!(wallet.info.wallet_type, WalletType::PostQuantum);
    assert_eq!(wallet.info.address_count, 1);
    assert_eq!(wallet.addresses.len(), 1);
    let entry = &wallet.addresses[0];
    assert_eq!(entry.address, "qtc-pqc1");
    assert_eq!(entry.private_key, None);
    assert_eq!(entry.public_key, vec![1; 4]);
    assert_eq!(entry.address_type, AddressType::PostQuantum);
    let data = entry.pqc_data.as_ref().unwrap();
    assert_eq!(data.signing_private_key, Some(vec![10, 11]));
    assert_eq!(data.encryption_private_key, Some(vec![12]));
    assert_eq!(data.signing_public_key, vec![1; 4]);
    assert_eq!(data.encryption_public_key, vec![2; 3]);
    assert!(wallet.has_pqc_addresses());
    assert!(!simple_wallet().has_pqc_addresses());

    assert_eq!(
        wallet.generate_pqc_address(&pqc_address(5), vec![], vec![]).unwrap(),
        "qtc-pqc5"
    );
    assert_eq!(wallet.info.address_count, 2);
    assert_eq!(
        wallet.get_addresses_by_type(AddressType::PostQuantum),
        vec!["qtc-pqc1".to_string(), "qtc-pqc5".to_string()]
    );
    assert!(wallet.get_addresses_by_type(AddressType::Classic).is_empty());
    assert!(wallet.get_addresses_by_type(AddressType::Hybrid).is_empty());
    wallet.info.address_count = u32::MAX;
    assert_eq!(
        wallet.generate_pqc_address(&pqc_address(7), vec![], vec![]).err(),
        Some(QtcError::Wallet(WalletReason::TooManyAddresses))
    );
    assert_eq!(wallet.addresses.len(), 2);

    let hybrid = Wallet::new_hybrid("both".to_string(), &address, vec![1], vec![2]).unwrap();
    assert_eq!(hybrid.info.wallet_type, WalletType::HybridClassicPqc);
    assert_eq!(hybrid.info.address_count, 2);
    assert_eq!(hybrid.addresses.len(), 2);
    assert_eq!(hybrid.addresses[0].address_type, AddressType::Classic);
    assert_eq!(hybrid.addresses[1].address_type, AddressType::PostQuantum);
    assert_eq!(hybrid.get_addresses_by_type(AddressType::Classic).len(), 1);
    assert!(hybrid.has_pqc_addresses());
    let copy = hybrid.addresses[1].clone();
    assert_eq!(copy.address, "qtc-pqc1");
    assert_eq!(copy.pqc_data.unwrap().signing_private_key, Some(vec![1]));
}

#[test]
fn insertion_replaces_the_entry_of_the_same_address() {
    let mut wallet = simple_wallet();
    let mut entry = wallet.addresses[0].clone();
    entry.used = true;
    wallet.insert_address(entry);
    assert_eq!(wallet.addresses.len(), 1);
    assert!(wallet.addresses[0].used);
    let mut other = wallet.addresses[0].clone();
    other.address = "another".to_string();
    wallet.insert_address(other);
    assert_eq!(wallet.get_addresses(), vec![
        "qtc1BgGZ9tcN4rm9KBzDn7KprQz87SZ26SAMH".to_string(),
        "another".to_string(),
    ]);
}

#[test]
fn derivation_path_texts() {
    assert_eq!(path_string(false, 0), "m/44'/0'/0'/0/0");
    assert_eq!(path_string(true, 7), "m/44'/0'/0'/1/7");
    assert_eq!(path_string(false, 10), "m/44'/0'/0'/0/10");
    assert_eq!(path_string(true, 1_234_567_890), "m/44'/0'/0'/1/1234567890");
    assert_eq!(path_string(true, u32::MAX), "m/44'/0'/0'/1/4294967295");
    let mut text = String::from("n=");
    append_decimal(&mut text, 908172635);
    assert_eq!(text, "n=908172635");
}

#[test]
fn stored_wallet_addresses() {
    assert_eq!(wallet_address_key("main", "qtc1abc"), b"main:qtc1abc".to_vec());
    assert_eq!(wallet_address_key("", ""), b":".to_vec());
    let wallet = simple_wallet();
    let record = WalletAddressData {
        wallet_id: wallet.info.name.clone(),
        address_info: wallet.addresses[0].clone(),
    };
    assert_eq!(record.wallet_id, "simple");
    assert_eq!(record.address_info.address, wallet.addresses[0].address);
}
