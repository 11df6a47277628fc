use quantum_goldchain::chain::transaction::{OutPoint, Transaction};
use quantum_goldchain::crypto::hash::Hash256;
use quantum_goldchain::crypto::keys::{
    address_to_hash160, encode_address, is_valid_address, KeyPair, PrivateKey, PublicKey,
};
use quantum_goldchain::crypto::pqc::{is_valid_pqc_address, HybridAddress, PqcAddress};
use quantum_goldchain::crypto::signatures::{Signature, SignatureUtils};
use quantum_goldchain::error::{CryptoReason, QtcError, TxReason};

/// The generator of the curve, compressed.
const GENERATOR: &str = "0279be667ef9dcbbac55a06295ce870b07029bfcdb2dce28d959f2815b16f81798";

fn generator() -> PublicKey {
    PublicKey::from_bytes(&hex::decode(GENERATOR).unwrap()).unwrap()
}

#[test]
fn test_key_generation() -> Result<(), QtcError> {
    let keypair = KeyPair::new()?;
    let address = keypair.address();

    assert!(address.starts_with("qtc"));
    assert!(is_valid_address(&address));

    Ok(())
}

#[test]
fn test_wif_roundtrip() -> Result<(), QtcError> {
    let private_key = PrivateKey::new()?;
    let wif = private_key.to_wif();
    let restored_key = PrivateKey::from_wif(&wif)?;

    assert_eq!(private_key.to_bytes(), restored_key.to_bytes());

    Ok(())
}

#[test]
fn keys_test_address_validation() -> Result<(), QtcError> {
    let keypair = KeyPair::new()?;
    let address = keypair.address();

    assert!(is_valid_address(&address));
    assert!(!is_valid_address("invalid"));
    assert!(!is_valid_address("btc1qw508d6qejxtdg4y5r3zarvary0c5xw7kxdz6v9"));

    Ok(())
}

#[test]
fn test_signature_roundtrip() -> Result<(), QtcError> {
    let private_key = PrivateKey::new()?;
    let public_key = private_key.public_key()?;
    let message = Hash256::hash(b"test message");

    let signature = private_key.sign(&message)?;
    let is_valid = public_key.verify(&message, &signature)?;

    assert!(is_valid);

    Ok(())
}

#[test]
fn test_signature_serialization() -> Result<(), QtcError> {
    let private_key = PrivateKey::new()?;
    let message = Hash256::hash(b"test message");
    let signature = private_key.sign(&message)?;

    let bytes = signature.to_bytes();
    let restored_signature = Signature::from_bytes(&bytes)?;

    assert_eq!(signature, restored_signature);

    Ok(())
}

#[test]
fn test_der_encoding() -> Result<(), QtcError> {
    let private_key = PrivateKey::new()?;
    let message = Hash256::hash(b"test message");
    let signature = private_key.sign(&message)?;

    let der = signature.to_der()?;
    let restored_signature = Signature::from_der(&der)?;

    // Note: DER encoding may not preserve recovery ID
    assert_eq!(signature.to_compact(), restored_signature.to_compact());

    Ok(())
}

#[test]
fn private_keys_in_bytes_and_text() {
    let mut one = [0u8; 32];
    one[31] = 1;
    let key = PrivateKey::from_bytes(&one).unwrap();
    assert_eq!(key.to_bytes(), one);
    assert_eq!(key.public_key().unwrap(), generator());
    // The secret key 1 of the main network of Bitcoin, uncompressed form
    // of the text.
    assert_eq!(key.to_wif(), "5HpHagT65TZzG1PH3CSu63k8DbpvD8s5ip4nEB3kEsreAnchuDf");
    assert_eq!(
        PrivateKey::from_wif("5HpHagT65TZzG1PH3CSu63k8DbpvD8s5ip4nEB3kEsreAnchuDf")
            .unwrap()
            .to_bytes(),
        one
    );
    let pair = KeyPair::from_private_key(key.clone()).unwrap();
    assert_eq!(pair.address(), "qtc1BgGZ9tcN4rm9KBzDn7KprQz87SZ26SAMH");
    assert_eq!(
        PrivateKey::from_bytes(&[0u8; 32]).err(),
        Some(QtcError::Crypto(CryptoReason::InvalidPrivateKey))
    );
    assert_eq!(
        PrivateKey::from_bytes(&[1u8; 31]).err(),
        Some(QtcError::Crypto(CryptoReason::PrivateKeyLength))
    );
    assert_eq!(
        PrivateKey::from_wif("0OIl").err(),
        Some(QtcError::Crypto(CryptoReason::WifEncoding))
    );
    assert_eq!(
        PrivateKey::from_wif("1BgGZ9tcN4rm9KBzDn7KprQz87SZ26SAMH").err(),
        Some(QtcError::Crypto(CryptoReason::WifFormat))
    );
    assert_eq!(
        PrivateKey::from_wif("5HpHagT65TZzG1PH3CSu63k8DbpvD8s5ip4nEB3kEsreAnchuDg").err(),
        Some(QtcError::Crypto(CryptoReason::WifChecksum))
    );
    // Signing is a function of key and hash.
    let digest = Hash256::hash(b"m");
    assert_eq!(key.sign(&digest).unwrap(), key.sign(&digest).unwrap());
    assert_eq!(key.sign(&digest).unwrap(), sign_with_one(digest.as_bytes()));
    assert_eq!(key.sign(&digest).unwrap().recovery_id(), 0);
}

#[test]
fn pqc_test_address_validation() {
    let address = encode_address("qtc-pqc", 0x05, &[7u8; 20]);

    assert!(is_valid_pqc_address(&address));
    assert!(!is_valid_pqc_address("invalid-address"));
    assert!(!is_valid_pqc_address("qtc1234567890"));
}

#[test]
fn address_is_base58_of_version_hash_and_checksum() {
    let key = generator();
    assert_eq!(key.hash160().to_hex(), "751e76e8199196d454941c45d1b3a323f1433bd6");
    assert_eq!(key.to_address(), "qtc1BgGZ9tcN4rm9KBzDn7KprQz87SZ26SAMH");
    assert_eq!(address_to_hash160(&key.to_address()).unwrap(), key.hash160());
    assert_eq!(key.to_bytes(), hex::decode(GENERATOR).unwrap().as_slice());
    assert_eq!(key.clone(), key);
}

#[test]
fn addresses_are_refused_for_the_first_defect() {
    let good = generator().to_address();
    assert_eq!(
        address_to_hash160("xyz1BgGZ9tcN4rm9KBzDn7KprQz87SZ26SAMH"),
        Err(QtcError::Crypto(CryptoReason::AddressPrefix))
    );
    assert_eq!(address_to_hash160("qt"), Err(QtcError::Crypto(CryptoReason::AddressPrefix)));
    assert_eq!(
        address_to_hash160("qtc0OIl"),
        Err(QtcError::Crypto(CryptoReason::AddressEncoding))
    );
    assert_eq!(
        address_to_hash160("qtc1BgGZ9tcN4rm9KBzDn7KprQz"),
        Err(QtcError::Crypto(CryptoReason::AddressFormat))
    );
    // Another version byte.
    let other = encode_address("qtc", 0x05, &[7u8; 20]);
    assert_eq!(address_to_hash160(&other), Err(QtcError::Crypto(CryptoReason::AddressFormat)));
    assert!(!is_valid_pqc_address(&good));
    // One character changed: the checksum no longer verifies.
    let mut chars: Vec<char> = good.chars().collect();
    let last = chars.len() - 1;
    chars[last] = if chars[last] == 'H' { 'J' } else { 'H' };
    let changed: String = chars.into_iter().collect();
    assert_eq!(
        address_to_hash160(&changed),
        Err(QtcError::Crypto(CryptoReason::AddressChecksum))
    );
    assert!(!is_valid_address(""));
}

#[test]
fn public_keys_must_lie_on_the_curve() {
    assert_eq!(
        PublicKey::from_bytes(&[2u8; 32]).err(),
        Some(QtcError::Crypto(CryptoReason::PublicKeyLength))
    );
    assert_eq!(
        PublicKey::from_bytes(&[0u8; 33]).err(),
        Some(QtcError::Crypto(CryptoReason::InvalidPublicKey))
    );
    assert!(PublicKey::from_bytes(&hex::decode(GENERATOR).unwrap()).is_ok());
}

#[test]
fn signatures_in_64_and_65_bytes() {
    let mut bytes = [0u8; 65];
    for (i, b) in bytes.iter_mut().enumerate() {
        *b = i as u8;
    }
    let long = Signature::from_bytes(&bytes).unwrap();
    assert_eq!(long.recovery_id(), 64);
    assert_eq!(long.to_bytes(), bytes.to_vec());
    assert_eq!(long.to_compact(), bytes[..64].to_vec());
    let mut short = Signature::from_bytes(&bytes[..64]).unwrap();
    assert_eq!(short.recovery_id(), 0);
    assert_ne!(short, long);
    short.set_recovery_id(64);
    assert_eq!(short, long);
    assert_eq!(
        Signature::from_bytes(&bytes[..63]).err(),
        Some(QtcError::Crypto(CryptoReason::SignatureLength))
    );
    assert_eq!(
        Signature::from_bytes(&[0u8; 66]).err(),
        Some(QtcError::Crypto(CryptoReason::SignatureLength))
    );
}

/// A signature by the secret key 1 over a 32-byte hash, made with the
/// curve library.
fn sign_with_one(digest: &[u8; 32]) -> Signature {
    let secp = secp256k1::Secp256k1::new();
    let mut secret = [0u8; 32];
    secret[31] = 1;
    let key = secp256k1::SecretKey::from_slice(&secret).unwrap();
    let message = secp256k1::Message::from_digest(*digest);
    let signature = secp.sign_ecdsa(&message, &key);
    Signature::from_bytes(&signature.serialize_compact()).unwrap()
}

#[test]
fn signatures_verify_under_the_right_key_and_hash() {
    let digest = Hash256::hash(b"test message");
    let signature = sign_with_one(digest.as_bytes());
    let key = generator();
    assert_eq!(key.verify(&digest, &signature), Ok(true));
    assert_eq!(SignatureUtils::verify(&key, digest.as_bytes(), &signature), Ok(true));
    let other = Hash256::hash(b"another message");
    assert_eq!(key.verify(&other, &signature), Ok(false));
    // Both halves above the order of the curve: no signature.
    let invalid = Signature::from_bytes(&[0xffu8; 64]).unwrap();
    assert_eq!(
        key.verify(&digest, &invalid),
        Err(QtcError::Crypto(CryptoReason::InvalidSignature))
    );
    assert_eq!(invalid.to_der().err(), Some(QtcError::Crypto(CryptoReason::InvalidSignature)));

    let der = signature.to_der().unwrap();
    assert_eq!(der[0], 0x30);
    let restored = Signature::from_der(&der).unwrap();
    assert_eq!(signature.to_compact(), restored.to_compact());
    assert_eq!(
        Signature::from_der(&[1, 2, 3]).err(),
        Some(QtcError::Crypto(CryptoReason::InvalidSignature))
    );
}

#[test]
fn transaction_inputs_carry_their_signature_last() {
    let mut tx = Transaction::new();
    tx.add_input(OutPoint::new(Hash256::new([1u8; 32]), 0), vec![]);
    tx.add_output(1000, "someone");
    let key = generator();
    assert_eq!(
        tx.verify_signature(1, &key),
        Err(QtcError::Transaction(TxReason::InvalidInputIndex { index: 1 }))
    );
    assert_eq!(tx.verify_signature(0, &key), Ok(false));
    tx.inputs[0].signature_script = vec![0u8; 63];
    assert_eq!(tx.verify_signature(0, &key), Ok(false));
    let signature = sign_with_one(tx.get_signature_hash(0).as_bytes());
    let mut script = vec![0x41u8];
    script.extend_from_slice(&signature.to_compact());
    tx.inputs[0].signature_script = script;
    assert_eq!(tx.verify_signature(0, &key), Ok(true));
    tx.outputs[0].value = 999;
    assert_eq!(tx.verify_signature(0, &key), Ok(false));
    tx.inputs[0].signature_script = vec![0xffu8; 64];
    assert_eq!(
        tx.verify_signature(0, &key),
        Err(QtcError::Crypto(CryptoReason::InvalidSignature))
    );
}

#[test]
fn hybrid_addresses() {
    let plain = HybridAddress::Traditional("qtc1abc".to_string());
    assert_eq!(plain.address_string(), "qtc1abc");
    assert!(!plain.is_pqc());
    let pqc = HybridAddress::PostQuantum(PqcAddress {
        signing_public_key: vec![1],
        encryption_public_key: vec![2],
        address: "qtc-pqcxyz".to_string(),
    });
    assert_eq!(pqc.address_string(), "qtc-pqcxyz");
    assert!(pqc.is_pqc());
}

#[test]
fn public_keys_are_recovered_from_signatures() {
    let digest = Hash256::hash(b"test message");
    let mut signature = sign_with_one(digest.as_bytes());
    let signer = generator();
    // One of the two low recovery ids gives the signer back.
    let mut recovered = vec![];
    for id in 0..2u8 {
        signature.set_recovery_id(id);
        let key = SignatureUtils::recover_public_key(digest.as_bytes(), &signature).unwrap();
        assert_eq!(key.to_bytes().len(), 33);
        // Whatever key is recovered, the signature verifies under it.
        assert_eq!(key.verify(&digest, &signature), Ok(true));
        recovered.push(key);
    }
    assert_ne!(recovered[0], recovered[1]);
    assert!(recovered.contains(&signer));

    signature.set_recovery_id(4);
    assert_eq!(
        SignatureUtils::recover_public_key(digest.as_bytes(), &signature).err(),
        Some(QtcError::Crypto(CryptoReason::InvalidRecoveryId))
    );
    let invalid = Signature::from_bytes(&[0xffu8; 64]).unwrap();
    assert_eq!(
        SignatureUtils::recover_public_key(digest.as_bytes(), &invalid).err(),
        Some(QtcError::Crypto(CryptoReason::InvalidSignature))
    );
    let empty = Signature::from_bytes(&[0u8; 64]).unwrap();
    assert_eq!(
        SignatureUtils::recover_public_key(digest.as_bytes(), &empty).err(),
        Some(QtcError::Crypto(CryptoReason::RecoveryFailed))
    );
}
