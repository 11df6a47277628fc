use quantum_goldchain::crypto::hash::{Hash160, Hash256, Hashable, HexError};

#[test]
fn test_hash256() {
    let data = b"hello world";
    let hash1 = Hash256::hash(data);
    let hash2 = Hash256::hash(data);

    assert_eq!(hash1, hash2);
    assert_ne!(hash1, Hash256::zero());
}

#[test]
fn test_hash256_hex() {
    let hash = Hash256::hash(b"test");
    let hex_str = hash.to_hex();
    let parsed_hash = Hash256::from_hex(&hex_str).unwrap();

    assert_eq!(hash, parsed_hash);
}

#[test]
fn test_double_hash() {
    let data = b"test";
    let single = Hash256::hash(data);
    let double = Hash256::double_hash(data);

    assert_ne!(single, double);
    assert_eq!(double, Hash256::hash(single.as_bytes()));
}

#[test]
fn sha256_matches_known_digests() {
    assert_eq!(
        Hash256::hash(b"").to_hex(),
        "e3b0c44298fc1c149afbf4c8996fb92427ae41e4649b934ca495991b7852b855"
    );
    assert_eq!(
        Hash256::hash(b"abc").to_hex(),
        "ba7816bf8f01cfea414140de5dae2223b00361a396177a9cb410ff61f20015ad"
    );
    assert_eq!(
        Hash256::double_hash(b"hello").to_hex(),
        "9595c9df90075148eb06860365df33584b75bff782a510c6cd4883a419833d50"
    );
}

#[test]
fn ripemd160_and_hash160_match_known_digests() {
    assert_eq!(Hash160::hash(b"").to_hex(), "9c1185a5c5e9fc54612808977ee8f548b2258d31");
    assert_eq!(Hash160::hash(b"abc").to_hex(), "8eb208f7e05d987a9b044a8e98c6b087f15a0bfc");
    assert_eq!(
        Hash160::hash_sha256(b"hello").to_hex(),
        "b6a9c8c230722b7c748331a8b450f05566dc7d0f"
    );
    let sha = Hash256::hash(b"hello");
    assert_eq!(Hash160::hash_sha256(b"hello"), Hash160::hash(sha.as_bytes()));
}

#[test]
fn hex_text_is_lower_case_high_half_first() {
    let mut bytes = [0u8; 32];
    bytes[0] = 0x0f;
    bytes[1] = 0xa0;
    bytes[31] = 0xff;
    let hash = Hash256::new(bytes);
    let text = hash.to_hex();
    assert_eq!(text.len(), 64);
    assert!(text.starts_with("0fa0"));
    assert!(text.ends_with("ff"));
    assert_eq!(Hash256::from_hex(&text.to_uppercase()), Ok(hash));
}

#[test]
fn from_hex_refuses_what_is_no_hash() {
    assert_eq!(Hash256::from_hex("abcd"), Err(HexError::InvalidStringLength));
    assert_eq!(Hash256::from_hex("abc"), Err(HexError::OddLength));
    assert_eq!(
        Hash256::from_hex("zz"),
        Err(HexError::InvalidHexCharacter { c: 'z', index: 0 })
    );
    assert!(Hash256::from_hex(&"0".repeat(64)).is_ok());
    assert_eq!(Hash256::from_hex(&"0".repeat(64)).unwrap(), Hash256::zero());
}

#[test]
fn from_slice_takes_exactly_32_bytes() {
    assert!(Hash256::from_slice(&[1u8; 31]).is_none());
    assert!(Hash256::from_slice(&[1u8; 33]).is_none());
    assert_eq!(Hash256::from_slice(&[1u8; 32]), Some(Hash256::new([1u8; 32])));
    assert_eq!(Hash256::from([7u8; 32]), Hash256::new([7u8; 32]));
    assert_eq!(Hash256::zero().as_bytes(), &[0u8; 32]);
}

#[test]
fn hashable_hashes_the_bytes() {
    let bytes: Vec<u8> = b"abc".to_vec();
    assert_eq!(Hashable::hash(&bytes), Hash256::hash(b"abc"));
    assert_eq!(Hashable::hash(&"abc".to_string()), Hash256::hash(b"abc"));
    let slice: &[u8] = b"abc";
    assert_eq!(Hashable::hash(&slice), Hash256::hash(b"abc"));
}
