use quantum_goldchain::crypto::hash::Hash256;
use quantum_goldchain::crypto::keys::is_valid_address;
use quantum_goldchain::error::{QtcError, WalletReason};
use quantum_goldchain::wallet::bip39::{ExtendedKey, HdWallet, Mnemonic, MnemonicUtils};

const ABANDON: &str =
    "abandon abandon abandon abandon abandon abandon abandon abandon abandon abandon abandon about";

const ABANDON_MASTER: &str = "0488ade40000000000000000007923408dadd3c7b56eed15567707ae5e5dca089de972e07f3b860450e2a3b70e001837c1be8e2995ec11cda2b066151be2cfb48adf9e47b151d46adab3a21cdf67";

const ABANDON_ACCOUNT: &str = "0488ade403155bca59800000003da4bc190a2680111d31fadfdc905f2a7f6ce77c6f109919116f253d4344521900fe64af825b5b78554c33a28b23085fc082f691b3c712cc1d4e66e133297da87a";

#[test]
fn test_mnemonic_generation() -> Result<(), QtcError> {
    let mnemonic = Mnemonic::new(12)?;
    assert_eq!(mnemonic.word_count(), 12);

    let phrase = mnemonic.phrase();
    assert!(Mnemonic::validate_phrase(&phrase));

    Ok(())
}

#[test]
fn test_seed_generation() -> Result<(), QtcError> {
    let mnemonic = Mnemonic::new(12)?;
    let seed1 = mnemonic.to_seed("");
    let seed2 = mnemonic.to_seed("password");

    assert_ne!(seed1.as_bytes(), seed2.as_bytes());
    assert_eq!(seed1.as_bytes().len(), 64);

    Ok(())
}

#[test]
fn test_hd_wallet() -> Result<(), QtcError> {
    let mnemonic = Mnemonic::new(12)?;
    let mut wallet = HdWallet::new(&mnemonic, "")?;

    let (address1, index1) = wallet.get_next_address(false)?;
    let (address2, index2) = wallet.get_next_address(false)?;

    assert_ne!(address1, address2);
    assert_eq!(index1, 0);
    assert_eq!(index2, 1);

    // Test deterministic generation
    let address1_again = wallet.get_address_at_index(false, 0)?;
    assert_eq!(address1, address1_again);

    Ok(())
}

#[test]
fn test_mnemonic_roundtrip() -> Result<(), QtcError> {
    let mnemonic = Mnemonic::new(12)?;
    let phrase = mnemonic.phrase();
    let restored_mnemonic = Mnemonic::from_phrase(&phrase)?;

    assert_eq!(mnemonic.phrase(), restored_mnemonic.phrase());

    Ok(())
}

#[test]
fn mnemonic_word_counts_and_entropy_sizes() {
    for (words, bytes) in [(12u32, 16usize), (15, 20), (18, 24), (21, 28), (24, 32)] {
        let mnemonic = Mnemonic::new(words).unwrap();
        assert_eq!(mnemonic.entropy().len(), bytes);
        assert_eq!(mnemonic.word_count(), words as usize);
        assert_eq!(mnemonic.words().len(), words as usize);
        assert_eq!(mnemonic.phrase().split_whitespace().count(), words as usize);
        assert_eq!(mnemonic.words().join(" "), mnemonic.phrase());
    }
    for words in [0u32, 11, 13, 16, 25, 48] {
        assert_eq!(
            Mnemonic::new(words).err(),
            Some(QtcError::Wallet(WalletReason::InvalidWordCount))
        );
    }
    assert_eq!(MnemonicUtils::generate_12_word().unwrap().word_count(), 12);
    assert_eq!(MnemonicUtils::generate_24_word().unwrap().word_count(), 24);
}

#[test]
fn mnemonic_from_known_phrase() {
    let mnemonic = Mnemonic::from_phrase(ABANDON).unwrap();
    assert_eq!(mnemonic.entropy(), &[0u8; 16][..]);
    assert_eq!(mnemonic.phrase(), ABANDON);
    assert_eq!(mnemonic.word_count(), 12);
    let words = mnemonic.words();
    assert_eq!(words.len(), 12);
    assert_eq!(words[0], "abandon");
    assert_eq!(words[11], "about");
    assert_eq!(
        mnemonic.hash().to_hex(),
        "c557eec878dfd852ba3f88087c4f350f09c55537ab5e549c3cd14320ec3cef38"
    );
    assert_eq!(mnemonic.hash(), Hash256::hash(ABANDON.as_bytes()));
    let copy = mnemonic.clone();
    assert_eq!(copy.entropy(), mnemonic.entropy());
}

#[test]
fn mnemonic_phrase_is_normalized_on_reading() {
    let spaced = ABANDON.replace(' ', "  ");
    let mnemonic = Mnemonic::from_phrase(&spaced).unwrap();
    assert_eq!(mnemonic.phrase(), ABANDON);
}

#[test]
fn mnemonic_rejects_bad_phrases() {
    let refused = Some(QtcError::Wallet(WalletReason::InvalidPhrase));
    // Wrong checksum.
    let wrong = "abandon abandon abandon abandon abandon abandon abandon abandon abandon abandon abandon abandon";
    assert_eq!(Mnemonic::from_phrase(wrong).err(), refused);
    assert!(!Mnemonic::validate_phrase(wrong));
    // A word outside the list.
    let unknown = ABANDON.replace("about", "abouts");
    assert_eq!(Mnemonic::from_phrase(&unknown).err(), refused);
    // A wrong number of words.
    assert_eq!(Mnemonic::from_phrase("abandon about").err(), refused);
    assert_eq!(Mnemonic::from_phrase("").err(), refused);
    assert!(Mnemonic::validate_phrase(ABANDON));
}

#[test]
fn seed_of_known_phrase() {
    let mnemonic = Mnemonic::from_phrase(ABANDON).unwrap();
    assert_eq!(
        hex::encode(mnemonic.to_seed("").as_bytes()),
        "5eb00bbddcf069084889a8ab9155568165f5c453ccb85e70811aaed6f6da5fc19a5ac40b389cd370d086206dec8aa6c43daea6690f20ad3d8d48b2d2ce9e38e4"
    );
    assert_eq!(
        hex::encode(mnemonic.to_seed("TREZOR").as_bytes()),
        "c55257c360c07c72029aebc1b53c05ed0362ada38ead3e3e9efa3708e53495531f09a6987599d18264c1e1c92f2cf141630c7a3c4ab7c81b2f001698e7463b04"
    );
    let seed = mnemonic.to_seed("");
    assert_eq!(seed.clone().as_bytes(), seed.as_bytes());
}

#[test]
fn master_key_of_known_seed() {
    let mnemonic = Mnemonic::from_phrase(ABANDON).unwrap();
    let master = mnemonic.to_seed("").to_master_key().unwrap();
    assert_eq!(hex::encode(master.encode()), ABANDON_MASTER);
    assert_eq!(
        hex::encode(master.secret_bytes()),
        "1837c1be8e2995ec11cda2b066151be2cfb48adf9e47b151d46adab3a21cdf67"
    );
    let wallet = HdWallet::new(&mnemonic, "").unwrap();
    assert_eq!(hex::encode(&wallet.master_key), ABANDON_MASTER);
    assert_eq!(wallet.mnemonic_hash, mnemonic.hash());
    assert_eq!(wallet.account_index, 0);
    assert_eq!(wallet.next_external_index, 0);
    assert_eq!(wallet.next_internal_index, 0);
    assert_eq!(wallet.get_master_key().unwrap().encode(), master.encode());
}

#[test]
fn exported_keys_of_known_seed() {
    let wallet = HdWallet::from_mnemonic_phrase(ABANDON, "TREZOR").unwrap();
    assert_eq!(
        wallet.export_xprv().unwrap(),
        "xprv9s21ZrQH143K3h3fDYiay8mocZ3afhfULfb5GX8kCBdno77K4HiA15Tg23wpbeF1pLfs1c5SPmYHrEpTuuRhxMwvKDwqdKiGJS9XFKzUsAF"
    );
    assert_eq!(
        wallet.export_xpub().unwrap(),
        "xpub661MyMwAqRbcGB88KaFbLGiYAat55APKhtWg4uYMkXAmfuSTbq2QYsn9sKJCj1YqZPafsboef4h4YbXXhNhPwMbkHTpkf3zLhx7HvFw1NDy"
    );
}

#[test]
fn derived_keys_of_known_seed() {
    let wallet = HdWallet::from_mnemonic_phrase(ABANDON, "").unwrap();
    let account = wallet.derive_account_key(0).unwrap();
    assert_eq!(hex::encode(account.encode()), ABANDON_ACCOUNT);
    // One step of the path: the child differs from its parent.
    let master = wallet.get_master_key().unwrap();
    let purpose = master.child(0x8000_0000 + 44).unwrap();
    assert_ne!(purpose.encode(), master.encode());
    let by_hand = purpose
        .child(0x8000_0000)
        .unwrap()
        .child(0x8000_0000)
        .unwrap();
    assert_eq!(by_hand.encode(), account.encode());

    let key = wallet.derive_address_key(0, false, 0).unwrap();
    assert_eq!(
        hex::encode(key.secret_bytes()),
        "e284129cc0922579a535bbf4d1a3b25773090d28c909bc0fed73b5e0222cc372"
    );
    assert_eq!(
        hex::encode(wallet.get_private_key_for_address(false, 0).unwrap().to_bytes()),
        "e284129cc0922579a535bbf4d1a3b25773090d28c909bc0fed73b5e0222cc372"
    );
    assert_eq!(
        hex::encode(wallet.get_private_key_for_address(true, 2).unwrap().to_bytes()),
        "179cc36a94bf2eb024c744de12a0d94072bdf902f11f8ef3db0f4c5359ea1017"
    );
    assert_eq!(
        wallet.get_address_at_index(false, 0).unwrap(),
        "qtc1LqBGSKuX5yYUonjxT5qGfpUsXKYYWeabA"
    );
    assert_eq!(
        wallet.get_address_at_index(true, 1).unwrap(),
        "qtc13vKxXzHXXd8HquAYdpkJoi9ULVXUgfpS5"
    );
    assert!(is_valid_address(&wallet.get_address_at_index(false, 0).unwrap()));
}

#[test]
fn next_addresses_advance_their_own_chain() {
    let mut wallet = HdWallet::from_mnemonic_phrase(ABANDON, "").unwrap();
    assert_eq!(
        wallet.get_next_address(false).unwrap(),
        ("qtc1LqBGSKuX5yYUonjxT5qGfpUsXKYYWeabA".to_string(), 0)
    );
    assert_eq!(
        wallet.get_next_address(true).unwrap(),
        ("qtc1J3J6EvPrv8q6AC3VCjWV45Uf3nssNMRtH".to_string(), 0)
    );
    assert_eq!(
        wallet.get_next_address(false).unwrap(),
        ("qtc1Ak8PffB2meyfYnbXZR9EGfLfFZVpzJvQP".to_string(), 1)
    );
    assert_eq!(wallet.next_external_index, 2);
    assert_eq!(wallet.next_internal_index, 1);
    let copy = wallet.clone();
    assert_eq!(copy.master_key, wallet.master_key);
    assert_eq!(copy.next_external_index, 2);
}

#[test]
fn scan_lists_receiving_then_change() {
    let wallet = HdWallet::from_mnemonic_phrase(ABANDON, "").unwrap();
    let found = wallet.scan_for_addresses(3).unwrap();
    let expected = vec![
        ("qtc1LqBGSKuX5yYUonjxT5qGfpUsXKYYWeabA".to_string(), false, 0u32),
        ("qtc1Ak8PffB2meyfYnbXZR9EGfLfFZVpzJvQP".to_string(), false, 1),
        ("qtc1MNF5RSaabFwcbtJirJwKnDytsXXEsVsNb".to_string(), false, 2),
        ("qtc1J3J6EvPrv8q6AC3VCjWV45Uf3nssNMRtH".to_string(), true, 0),
        ("qtc13vKxXzHXXd8HquAYdpkJoi9ULVXUgfpS5".to_string(), true, 1),
        ("qtc1M21Wx1nGrHMPaz52N2En7c624nzL4MYTk".to_string(), true, 2),
    ];
    assert_eq!(found, expected);
    assert!(wallet.scan_for_addresses(0).unwrap().is_empty());
}

#[test]
fn hd_wallet_errors() {
    assert_eq!(
        HdWallet::from_mnemonic_phrase("not a sentence", "").err(),
        Some(QtcError::Wallet(WalletReason::InvalidPhrase))
    );
    let mut wallet = HdWallet::from_mnemonic_phrase(ABANDON, "").unwrap();
    let high = Some(QtcError::Wallet(WalletReason::InvalidChildNumber));
    assert_eq!(wallet.derive_account_key(0x8000_0000).err(), high);
    assert_eq!(wallet.derive_address_key(0, false, 0x8000_0000).err(), high);
    assert_eq!(wallet.get_address_at_index(true, u32::MAX).err(), high);
    wallet.next_external_index = 0x8000_0000;
    assert_eq!(wallet.get_next_address(false).err(), high);
    assert_eq!(wallet.next_external_index, 0x8000_0000);

    let broken = Some(QtcError::Wallet(WalletReason::InvalidMasterKey));
    wallet.master_key.pop();
    assert_eq!(wallet.get_master_key().err(), broken);
    assert_eq!(wallet.export_xprv().err(), broken);
    assert_eq!(wallet.export_xpub().err(), broken);
    assert_eq!(wallet.derive_account_key(0).err(), broken);
    assert_eq!(wallet.get_next_address(true).err(), broken);
    assert_eq!(wallet.scan_for_addresses(1).err(), broken);
    assert_eq!(wallet.next_internal_index, 0);
    // 78 bytes with an unknown version.
    assert_eq!(ExtendedKey::decode(&[0u8; 78]).err(), broken);
    assert!(ExtendedKey::decode(&hex::decode(ABANDON_MASTER).unwrap()).is_ok());
}

#[test]
fn word_list_lookups() {
    assert!(MnemonicUtils::validate_word("abandon"));
    assert!(MnemonicUtils::validate_word("zoo"));
    assert!(!MnemonicUtils::validate_word("abando"));
    assert!(!MnemonicUtils::validate_word(""));
    assert!(!MnemonicUtils::validate_word("Abandon"));
    assert_eq!(
        MnemonicUtils::suggest_words("aban"),
        vec!["abandon".to_string()]
    );
    assert_eq!(
        MnemonicUtils::suggest_words("zo"),
        vec!["zone".to_string(), "zoo".to_string()]
    );
    assert!(MnemonicUtils::suggest_words("qq").is_empty());
    assert_eq!(MnemonicUtils::suggest_words("").len(), 2048);
}

#[test]
fn checksum_bits_of_entropy() {
    assert_eq!(MnemonicUtils::calculate_checksum(&[0u8; 16]).unwrap(), "0011");
    let counted: Vec<u8> = (0u8..32).collect();
    assert_eq!(MnemonicUtils::calculate_checksum(&counted).unwrap(), "01100011");
    assert_eq!(MnemonicUtils::calculate_checksum(&[]).unwrap(), "");
    assert_eq!(MnemonicUtils::calculate_checksum(&[7u8; 3]).unwrap(), "");
    assert_eq!(MnemonicUtils::calculate_checksum(&[0u8; 35]).unwrap().len(), 8);
    assert_eq!(
        MnemonicUtils::calculate_checksum(&[0u8; 36]).err(),
        Some(QtcError::Wallet(WalletReason::EntropyTooLong))
    );
}
