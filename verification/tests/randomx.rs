use quantum_goldchain::error::{MiningReason, QtcError};
use quantum_goldchain::mining::randomx::{
    estimate_memory_usage, get_recommended_flags, RandomXCache, RandomXDataset, RandomXHash,
    RandomXMiner, RandomXVM, RANDOMX_FLAG_DEFAULT, RANDOMX_FLAG_FULL_MEM, RANDOMX_FLAG_HARD_AES,
    RANDOMX_FLAG_JIT,
};
use std::sync::Arc;

#[test]
fn test_randomx_hash_creation() {
    let bytes = [1u8; 32];
    let hash = RandomXHash::new(bytes);
    assert_eq!(hash.as_bytes(), &bytes);
}

#[test]
fn test_randomx_hash_hex() {
    let bytes = [0u8; 32];
    let hash = RandomXHash::new(bytes);
    let hex = hash.to_hex();
    assert_eq!(hex, "0".repeat(64));

    let parsed = RandomXHash::from_hex(&hex).unwrap();
    assert_eq!(parsed, hash);
}

#[test]
fn test_difficulty_check() {
    // Test hash with leading zeros
    let mut bytes = [0xFFu8; 32];
    bytes[0] = 0x00;
    bytes[1] = 0x00;
    let hash = RandomXHash::new(bytes);

    assert!(hash.meets_difficulty(8)); // 2 zero bytes = 8 zero bits
    assert!(!hash.meets_difficulty(16)); // Doesn't have 4 zero bytes
}

#[test]
fn test_cache_creation() {
    let cache = RandomXCache::new(RANDOMX_FLAG_DEFAULT).unwrap();
    assert!(!cache.is_initialized());
}

#[test]
fn test_cache_initialization() {
    let mut cache = RandomXCache::new(RANDOMX_FLAG_DEFAULT).unwrap();
    let key = b"test_key";
    cache.init(key).unwrap();
    assert!(cache.is_initialized());
}

#[test]
fn test_vm_creation() {
    let mut cache = RandomXCache::new(RANDOMX_FLAG_DEFAULT).unwrap();
    let key = b"test_key";
    cache.init(key).unwrap();
    let cache = Arc::new(cache);

    let _vm = RandomXVM::new(RANDOMX_FLAG_DEFAULT, cache).unwrap();
    // VM should be created successfully
}

#[test]
fn test_hash_calculation() {
    let mut cache = RandomXCache::new(RANDOMX_FLAG_DEFAULT).unwrap();
    let key = b"test_key";
    cache.init(key).unwrap();
    let cache = Arc::new(cache);

    let vm = RandomXVM::new(RANDOMX_FLAG_DEFAULT, cache).unwrap();
    let input = b"test_input";
    let hash1 = vm.calculate_hash(input).unwrap();
    let hash2 = vm.calculate_hash(input).unwrap();

    // Same input should produce same hash
    assert_eq!(hash1, hash2);
}

#[test]
fn test_different_inputs_different_hashes() {
    let mut cache = RandomXCache::new(RANDOMX_FLAG_DEFAULT).unwrap();
    let key = b"test_key";
    cache.init(key).unwrap();
    let cache = Arc::new(cache);

    let vm = RandomXVM::new(RANDOMX_FLAG_DEFAULT, cache).unwrap();
    let hash1 = vm.calculate_hash(b"input1").unwrap();
    let hash2 = vm.calculate_hash(b"input2").unwrap();

    // Different inputs should produce different hashes
    assert_ne!(hash1, hash2);
}

#[test]
fn randomx_test_miner_creation() {
    let key = b"test_mining_key";
    let miner = RandomXMiner::new(key, Some(1), false).unwrap();
    assert_eq!(miner.thread_count(), 1);
    assert!(!miner.is_fast_mode());
}

#[test]
fn test_miner_hashing() {
    let key = b"test_mining_key";
    let miner = RandomXMiner::new(key, Some(1), false).unwrap();
    let input = b"test_block_data";
    let hash = miner.hash(input).unwrap();

    // Should produce a valid 32-byte hash
    assert_eq!(hash.as_bytes().len(), 32);
}

#[test]
fn test_memory_estimation() {
    let light_memory = estimate_memory_usage(RANDOMX_FLAG_DEFAULT);
    let full_memory = estimate_memory_usage(RANDOMX_FLAG_FULL_MEM);

    assert!(full_memory > light_memory);
    assert_eq!(light_memory, 256 * 1024 * 1024);
    assert_eq!(full_memory, 2048 * 1024 * 1024);
}

#[test]
fn pow_hash_chains_three_rounds() {
    let miner = RandomXMiner::new(b"test_key", None, true).unwrap();
    assert_eq!(miner.thread_count(), 1);
    assert!(miner.is_fast_mode());
    assert_eq!(
        miner.hash(b"test_input").unwrap().to_hex(),
        "989e51b3bd5b9d36ef018c78545a7bcad6e119038a1023c1e09bbe6dfbb3e26c"
    );
    let other = RandomXMiner::new(b"test_mining_key", Some(3), false).unwrap();
    assert_eq!(
        other.hash(b"test_block_data").unwrap().to_hex(),
        "fd95638f19e35caf4ee4af1b73536f5fc51769709e6d0bb939001287429916b9"
    );
    let empty = RandomXMiner::new(b"", Some(1), false).unwrap();
    assert_eq!(
        empty.hash(b"").unwrap().to_hex(),
        "469b528e8e4182b39d3501ffa79405861ca22b6bc5dfa9c83f3a16e609452413"
    );
    let odd = RandomXMiner::new(b"abcde", Some(1), false).unwrap();
    let input: Vec<u8> = (0u8..40).collect();
    assert_eq!(
        odd.hash(&input).unwrap().to_hex(),
        "14b96e59a7509b7551c0a27785429502b766166dc3f2afcf3096afef19894373"
    );
}

#[test]
fn pow_hash_depends_on_the_key() {
    let a = RandomXMiner::new(b"key-a", Some(1), false).unwrap();
    let b = RandomXMiner::new(b"key-b", Some(1), false).unwrap();
    assert_ne!(a.hash(b"same").unwrap(), b.hash(b"same").unwrap());
}

#[test]
fn difficulty_counts_zero_bytes_then_top_bits() {
    let mut bytes = [0xFFu8; 32];
    bytes[0] = 0x00;
    bytes[1] = 0x1F;
    let hash = RandomXHash::new(bytes);
    assert!(hash.meets_difficulty(0));
    assert!(hash.meets_difficulty(4));
    assert!(hash.meets_difficulty(5)); // one zero byte, top bit of the next clear
    assert!(hash.meets_difficulty(6));
    assert!(hash.meets_difficulty(7));
    assert!(!hash.meets_difficulty(8));
    bytes[1] = 0x20;
    let hash = RandomXHash::new(bytes);
    assert!(hash.meets_difficulty(6));
    assert!(!hash.meets_difficulty(7));
    bytes[1] = 0x40;
    assert!(RandomXHash::new(bytes).meets_difficulty(5));
    assert!(!RandomXHash::new(bytes).meets_difficulty(6));
    bytes[1] = 0x80;
    assert!(!RandomXHash::new(bytes).meets_difficulty(5));
    let zero = RandomXHash::new([0u8; 32]);
    assert!(zero.meets_difficulty(128));
    assert!(zero.meets_difficulty(131));
    assert!(!zero.meets_difficulty(132));
    assert!(!zero.meets_difficulty(u32::MAX));
}

#[test]
fn machine_needs_an_initialized_cache() {
    let cache = Arc::new(RandomXCache::new(RANDOMX_FLAG_DEFAULT).unwrap());
    assert_eq!(
        RandomXVM::new(RANDOMX_FLAG_DEFAULT, cache.clone()).err(),
        Some(QtcError::Mining(MiningReason::CacheNotInitialized))
    );
    let mut ready = RandomXCache::new(RANDOMX_FLAG_DEFAULT).unwrap();
    ready.init(b"k1").unwrap();
    let mut vm = RandomXVM::new(RANDOMX_FLAG_DEFAULT, Arc::new(ready)).unwrap();
    let before = vm.calculate_hash(b"x").unwrap();
    assert_eq!(vm.set_cache(cache), Err(QtcError::Mining(MiningReason::CacheNotInitialized)));
    assert_eq!(vm.calculate_hash(b"x").unwrap(), before);
    let mut second = RandomXCache::new(RANDOMX_FLAG_DEFAULT).unwrap();
    second.init(b"k2").unwrap();
    assert_eq!(vm.set_cache(Arc::new(second)), Ok(()));
    assert_ne!(vm.calculate_hash(b"x").unwrap(), before);
    assert_eq!(
        vm.calculate_hash(b"x").unwrap(),
        RandomXMiner::new(b"k2", Some(1), false).unwrap().hash(b"x").unwrap()
    );
}

#[test]
fn flags_and_hex_errors() {
    assert_eq!(get_recommended_flags(), 2 | 8 | 96);
    let fast = RandomXMiner::new(b"k", Some(2), true).unwrap();
    assert_eq!(fast.get_flags(), RANDOMX_FLAG_FULL_MEM | RANDOMX_FLAG_JIT | RANDOMX_FLAG_HARD_AES);
    let light = RandomXMiner::new(b"k", Some(2), false).unwrap();
    assert_eq!(light.get_flags(), RANDOMX_FLAG_DEFAULT);
    assert_eq!(estimate_memory_usage(RANDOMX_FLAG_FULL_MEM | RANDOMX_FLAG_JIT), 2048 * 1024 * 1024);
    assert_eq!(RandomXHash::from_hex("zz").err(), Some(QtcError::Mining(MiningReason::InvalidHex)));
    assert_eq!(RandomXHash::from_hex("abcd").err(), Some(QtcError::Mining(MiningReason::HashLength)));
    let mut dataset = RandomXDataset::new(RANDOMX_FLAG_DEFAULT).unwrap();
    let cache = RandomXCache::new(RANDOMX_FLAG_DEFAULT).unwrap();
    assert_eq!(dataset.init(&cache), Ok(()));
}
