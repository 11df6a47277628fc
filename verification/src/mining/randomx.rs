//! The keyed proof-of-work hash and the rule that a hash meets a
//! difficulty.

use crate::chain::codec::put_bytes;
use crate::crypto::hash::{hex_bytes, hex_decode, hex_encode, hex_text, is_hex_text, sha256, sha256_digest, array32_from};
use crate::error::{MiningReason, QtcError};
use std::sync::Arc;
use vstd::prelude::*;

verus! {

pub const RANDOMX_FLAG_DEFAULT: u32 = 0;

pub const RANDOMX_FLAG_LARGE_PAGES: u32 = 1;

pub const RANDOMX_FLAG_HARD_AES: u32 = 2;

pub const RANDOMX_FLAG_FULL_MEM: u32 = 4;

pub const RANDOMX_FLAG_JIT: u32 = 8;

pub const RANDOMX_FLAG_SECURE: u32 = 16;

pub const RANDOMX_FLAG_ARGON2_SSSE3: u32 = 32;

pub const RANDOMX_FLAG_ARGON2_AVX2: u32 = 64;

pub const RANDOMX_FLAG_ARGON2: u32 = 96;

/// The flags of the fast mode: full memory, JIT and hard AES.
pub const RANDOMX_FLAGS_FAST: u32 = 14;

/// The recommended flags: hard AES, JIT and both Argon2 variants.
pub const RANDOMX_FLAGS_RECOMMENDED: u32 = 106;

/// Memory of the light mode in bytes: 256 MiB.
pub const LIGHT_MEMORY_BYTES: usize = 268435456;

/// Memory of the full mode in bytes: 2 GiB.
pub const FULL_MEMORY_BYTES: usize = 2147483648;

/// Whether the top `n` bits of a byte are clear, for `n` from 1 to 3.
pub open spec fn top_bits_clear(byte: u8, n: u32) -> bool {
    if n == 1 {
        byte < 128
    } else if n == 2 {
        byte < 64
    } else if n == 3 {
        byte < 32
    } else {
        true
    }
}

/// A 32-byte hash meets difficulty `d` when its first `d / 4` bytes are
/// zero and, where `d` is no multiple of 4, the byte after them has its
/// top `d % 4` bits clear. No hash meets a difficulty that asks for more
/// than 32 zero bytes; with exactly 32 there is no byte after them.
pub open spec fn meets_difficulty(hash: Seq<u8>, d: u32) -> bool {
    &&& d / 4 <= 32
    &&& forall|i: int| 0 <= i < d / 4 ==> hash[i] == 0
    &&& d % 4 != 0 && d / 4 < 32 ==> top_bits_clear(hash[(d / 4) as int], d % 4)
}

/// The tag that is hashed with the key into the machine's seed.
pub open spec fn seed_tag() -> Seq<u8> {
    seq![
        0x72u8, 0x61, 0x6e, 0x64, 0x6f, 0x6d, 0x78, 0x5f, 0x76, 0x6d, 0x5f, 0x73, 0x65, 0x65, 0x64,
    ]
}

/// The seed that a key gives the machine: SHA-256 of the key and the tag
/// `randomx_vm_seed`.
pub open spec fn vm_seed(key: Seq<u8>) -> Seq<u8> {
    sha256_digest(key + seed_tag())
}

/// Of the first `n` bytes of `input`, every `stride`-th, each mixed with
/// one more than its position (modulo 256).
pub open spec fn position_mix(input: Seq<u8>, stride: int, n: nat) -> Seq<u8>
    decreases n,
{
    if n == 0 {
        Seq::empty()
    } else {
        let i = (n - 1) as int;
        let rest = position_mix(input, stride, (n - 1) as nat);
        if i % stride == 0 {
            rest.push(input[i] ^ (((i % 256) + 1) % 256) as u8)
        } else {
            rest
        }
    }
}

/// Of the first `n` bytes of `input`, every `stride`-th, each mixed with
/// the byte of `pad` at its position (modulo 32).
pub open spec fn pad_mix(input: Seq<u8>, pad: Seq<u8>, stride: int, n: nat) -> Seq<u8>
    decreases n,
{
    if n == 0 {
        Seq::empty()
    } else {
        let i = (n - 1) as int;
        let rest = pad_mix(input, pad, stride, (n - 1) as nat);
        if i % stride == 0 {
            rest.push(input[i] ^ pad[i % 32])
        } else {
            rest
        }
    }
}

/// The key in groups of four bytes, each byte mixed with the byte of `pad`
/// at its place in the group, the last group filled up with zeros.
pub open spec fn key_mix(key: Seq<u8>, pad: Seq<u8>) -> Seq<u8> {
    Seq::new(
        (4 * ((key.len() + 3) / 4)) as nat,
        |p: int|
            if p < key.len() {
                key[p] ^ pad[p % 4]
            } else {
                0u8
            },
    )
}

/// The first round: the key, the input and the seed.
pub open spec fn pow_round1(key: Seq<u8>, input: Seq<u8>) -> Seq<u8> {
    sha256_digest(key + input + vm_seed(key))
}

/// The second round: the first round, the seed and every seventh input
/// byte mixed with its position.
pub open spec fn pow_round2(key: Seq<u8>, input: Seq<u8>) -> Seq<u8> {
    sha256_digest(pow_round1(key, input) + vm_seed(key) + position_mix(input, 7, input.len()))
}

/// The proof-of-work hash of `input` under the epoch key `key`: three
/// chained SHA-256 rounds, the last over the second round, the key mixed
/// with it and every third input byte mixed with the first round.
pub open spec fn pow_hash(key: Seq<u8>, input: Seq<u8>) -> Seq<u8> {
    sha256_digest(
        pow_round2(key, input) + key_mix(key, pow_round2(key, input)) + pad_mix(
            input,
            pow_round1(key, input),
            3,
            input.len(),
        ),
    )
}

/// A proof-of-work hash.
#[derive(Clone, Copy, Debug, Eq)]
pub struct RandomXHash(pub [u8; 32]);

impl View for RandomXHash {
    type V = Seq<u8>;

    open spec fn view(&self) -> Seq<u8> {
        self.0@
    }
}

impl PartialEq for RandomXHash {
    fn eq(&self, other: &Self) -> (same: bool) {
        crate::crypto::hash::bytes_equal(self.0.as_slice(), other.0.as_slice())
    }
}

impl vstd::std_specs::cmp::PartialEqSpecImpl for RandomXHash {
    open spec fn obeys_eq_spec() -> bool {
        true
    }

    open spec fn eq_spec(&self, other: &Self) -> bool {
        self@ == other@
    }
}

impl RandomXHash {
    pub fn new(bytes: [u8; 32]) -> (h: Self)
        ensures
            h@ == bytes@,
    {
        RandomXHash(bytes)
    }

    pub fn as_bytes(&self) -> (bytes: &[u8; 32])
        ensures
            bytes@ == self@,
    {
        &self.0
    }

    /// Lower-case hexadecimal text, 64 digits.
    pub fn to_hex(&self) -> (text: String)
        ensures
            text@ == hex_text(self@),
    {
        hex_encode(self.0.as_slice())
    }

    /// Reads 64 hexadecimal digits.
    pub fn from_hex(hex: &str) -> (out: Result<Self, QtcError>)
        ensures
            out is Ok <==> is_hex_text(hex@) && hex@.len() == 64,
            out matches Ok(h) ==> h@ == hex_bytes(hex@),
            out matches Err(e) ==> e == if is_hex_text(hex@) {
                QtcError::Mining(MiningReason::HashLength)
            } else {
                QtcError::Mining(MiningReason::InvalidHex)
            },
    {
        match hex_decode(hex) {
            Err(_) => Err(QtcError::Mining(MiningReason::InvalidHex)),
            Ok(bytes) => {
                if bytes.len() != 32 {
                    Err(QtcError::Mining(MiningReason::HashLength))
                } else {
                    let h = RandomXHash(array32_from(bytes.as_slice()));
                    assert(h@ =~= bytes@);
                    Ok(h)
                }
            },
        }
    }

    /// Whether the hash meets `difficulty`.
    pub fn meets_difficulty(&self, difficulty: u32) -> (meets: bool)
        ensures
            meets == meets_difficulty(self@, difficulty),
    {
        hash_meets_difficulty(&self.0, difficulty)
    }
}

/// Whether 32 bytes meet `difficulty`.
pub fn hash_meets_difficulty(hash: &[u8; 32], difficulty: u32) -> (meets: bool)
    ensures
        meets == meets_difficulty(hash@, difficulty),
{
    let required_zeros = difficulty / 4;
    let remaining_bits = difficulty % 4;
    if required_zeros > 32 {
        return false;
    }
    let mut i: usize = 0;
    while i < required_zeros as usize
        invariant
            i <= required_zeros <= 32,
            required_zeros == difficulty / 4,
            forall|j: int| 0 <= j < i ==> hash@[j] == 0,
        decreases required_zeros - i,
    {
        if hash[i] != 0 {
            assert(hash@[i as int] != 0);
            return false;
        }
        i += 1;
    }
    if remaining_bits > 0 && required_zeros < 32 {
        let byte = hash[required_zeros as usize];
        let mask: u8 = if remaining_bits == 1 {
            0x80
        } else if remaining_bits == 2 {
            0xC0
        } else {
            0xE0
        };
        assert((byte & 0x80 == 0) <==> byte < 128) by (bit_vector);
        assert((byte & 0xC0 == 0) <==> byte < 64) by (bit_vector);
        assert((byte & 0xE0 == 0) <==> byte < 32) by (bit_vector);
        if byte & mask != 0 {
            return false;
        }
    }
    true
}

/// The key of an epoch, once it is set.
#[derive(Debug)]
pub struct RandomXCache {
    pub key: Vec<u8>,
    pub initialized: bool,
}

impl RandomXCache {
    /// An empty cache. The flags choose how the hasher is laid out in
    /// memory; they do not change any hash.
    pub fn new(flags: u32) -> (out: Result<Self, QtcError>)
        ensures
            out matches Ok(cache) && cache.key@ == Seq::<u8>::empty() && !cache.initialized,
    {
        Ok(RandomXCache { key: Vec::new(), initialized: false })
    }

    /// Sets the key.
    pub fn init(&mut self, key: &[u8]) -> (out: Result<(), QtcError>)
        ensures
            out is Ok,
            final(self).key@ == key@,
            final(self).initialized,
    {
        self.key = vstd::slice::slice_to_vec(key);
        self.initialized = true;
        Ok(())
    }

    pub fn is_initialized(&self) -> (set: bool)
        ensures
            set == self.initialized,
    {
        self.initialized
    }
}

/// The hashing machine of one epoch.
#[derive(Debug)]
pub struct RandomXVM {
    cache: Arc<RandomXCache>,
    seed: [u8; 32],
}

impl RandomXVM {
    /// The seed is the one that the cache's key gives.
    #[verifier::type_invariant]
    spec fn seeded(&self) -> bool {
        self.seed@ == vm_seed(self.cache.key@)
    }

    /// The key under which the machine hashes.
    pub closed spec fn key(&self) -> Seq<u8> {
        self.cache.key@
    }

    /// The seed for a key.
    fn derive_seed(key: &[u8]) -> (seed: [u8; 32])
        ensures
            seed@ == vm_seed(key@),
    {
        let mut data: Vec<u8> = Vec::new();
        put_bytes(&mut data, key);
        let tag: [u8; 15] = [
            0x72, 0x61, 0x6e, 0x64, 0x6f, 0x6d, 0x78, 0x5f, 0x76, 0x6d, 0x5f, 0x73, 0x65, 0x65, 0x64,
        ];
        put_bytes(&mut data, tag.as_slice());
        assert(data@ =~= key@ + seed_tag());
        sha256(data.as_slice())
    }

    /// A machine over an initialized cache.
    pub fn new(flags: u32, cache: Arc<RandomXCache>) -> (out: Result<Self, QtcError>)
        ensures
            out is Ok <==> cache.initialized,
            out matches Ok(vm) ==> vm.key() == cache.key@,
            out matches Err(e) ==> e == QtcError::Mining(MiningReason::CacheNotInitialized),
    {
        if !cache.is_initialized() {
            return Err(QtcError::Mining(MiningReason::CacheNotInitialized));
        }
        let seed = Self::derive_seed(cache.key.as_slice());
        Ok(RandomXVM { cache, seed })
    }

    /// The proof-of-work hash of `input` under the cache's key.
    pub fn calculate_hash(&self, input: &[u8]) -> (out: Result<RandomXHash, QtcError>)
        ensures
            out matches Ok(h) && h@ == pow_hash(self.key(), input@),
    {
        proof {
            use_type_invariant(self);
        }
        let key = self.cache.key.as_slice();
        let mut first: Vec<u8> = Vec::new();
        put_bytes(&mut first, key);
        put_bytes(&mut first, input);
        put_bytes(&mut first, self.seed.as_slice());
        assert(first@ =~= key@ + input@ + vm_seed(key@));
        let round1 = sha256(first.as_slice());

        let mut second: Vec<u8> = Vec::new();
        put_bytes(&mut second, round1.as_slice());
        put_bytes(&mut second, self.seed.as_slice());
        let ghost head2 = second@;
        let mut i: usize = 0;
        while i < input.len()
            invariant
                i <= input@.len(),
                second@ == head2 + position_mix(input@, 7, i as nat),
            decreases input@.len() - i,
        {
            if i % 7 == 0 {
                let salt: u8 = (((i % 256) + 1) % 256) as u8;
                second.push(input[i] ^ salt);
            }
            assert(second@ =~= head2 + position_mix(input@, 7, (i + 1) as nat));
            i += 1;
        }
        assert(second@ =~= pow_round1(key@, input@) + vm_seed(key@) + position_mix(
            input@,
            7,
            input@.len(),
        ));
        let round2 = sha256(second.as_slice());

        let mut third: Vec<u8> = Vec::new();
        put_bytes(&mut third, round2.as_slice());
        let groups: usize = key.len() / 4 + (if key.len() % 4 == 0 {
            0
        } else {
            1
        });
        let mut g: usize = 0;
        while g < groups
            invariant
                g <= groups,
                groups == (key@.len() + 3) / 4,
                key@.len() <= usize::MAX,
                third@.len() == 32 + 4 * g,
                third@.subrange(0, 32) == round2@,
                forall|p: int|
                    0 <= p < 4 * g ==> third@[32 + p] == key_mix(key@, round2@)[p],
            decreases groups - g,
        {
            let ghost before = third@;
            let mut t: usize = 0;
            while t < 4
                invariant
                    t <= 4,
                    g < groups,
                    groups == (key@.len() + 3) / 4,
                    key@.len() <= usize::MAX,
                    third@.len() == 32 + 4 * g + t,
                    third@.subrange(0, 32) == round2@,
                    forall|p: int|
                        0 <= p < 4 * g + t ==> third@[32 + p] == key_mix(key@, round2@)[p],
                decreases 4 - t,
            {
                let ghost prior = third@;
                let at: usize = 4 * g + t;
                let byte: u8 = if at < key.len() {
                    key[at] ^ round2[t]
                } else {
                    0
                };
                assert(at % 4 == t);
                third.push(byte);
                assert(third@.subrange(0, 32) =~= prior.subrange(0, 32));
                assert forall|p: int| 0 <= p < 4 * g + t + 1 implies third@[32 + p] == key_mix(
                    key@,
                    round2@,
                )[p] by {
                    if p < 4 * g + t {
                        assert(third@[32 + p] == prior[32 + p]);
                    }
                }
                t += 1;
            }
            g += 1;
        }
        assert(third@ =~= round2@ + key_mix(key@, round2@));
        let ghost head3 = third@;
        let mut k: usize = 0;
        while k < input.len()
            invariant
                k <= input@.len(),
                third@ == head3 + pad_mix(input@, round1@, 3, k as nat),
            decreases input@.len() - k,
        {
            if k % 3 == 0 {
                third.push(input[k] ^ round1[k % 32]);
            }
            assert(third@ =~= head3 + pad_mix(input@, round1@, 3, (k + 1) as nat));
            k += 1;
        }
        let digest = sha256(third.as_slice());
        Ok(RandomXHash::new(digest))
    }

    /// Replaces the cache by an initialized one and derives the seed anew.
    /// The machine is unchanged where the cache is refused.
    pub fn set_cache(&mut self, cache: Arc<RandomXCache>) -> (out: Result<(), QtcError>)
        ensures
            out is Ok <==> cache.initialized,
            out is Ok ==> final(self).key() == cache.key@,
            out matches Err(e) ==> e == QtcError::Mining(MiningReason::CacheNotInitialized)
                && *final(self) == *old(self),
    {
        if !cache.is_initialized() {
            return Err(QtcError::Mining(MiningReason::CacheNotInitialized));
        }
        let seed = Self::derive_seed(cache.key.as_slice());
        *self = RandomXVM { cache, seed };
        Ok(())
    }
}

/// The dataset of the full mode. It holds nothing: the hash does not
/// depend on it.
pub struct RandomXDataset {
    pub data: Vec<u8>,
}

impl RandomXDataset {
    pub fn new(flags: u32) -> (out: Result<Self, QtcError>)
        ensures
            out matches Ok(dataset) && dataset.data@ == Seq::<u8>::empty(),
    {
        Ok(RandomXDataset { data: Vec::new() })
    }

    /// Leaves the dataset as it is.
    pub fn init(&mut self, cache: &RandomXCache) -> (out: Result<(), QtcError>)
        ensures
            out is Ok,
            *final(self) == *old(self),
    {
        Ok(())
    }
}

/// A hasher for one epoch key together with the miner's settings.
pub struct RandomXMiner {
    vm: RandomXVM,
    cache: Arc<RandomXCache>,
    threads: usize,
    fast_mode: bool,
}

impl RandomXMiner {
    /// The machine hashes under the miner's key.
    #[verifier::type_invariant]
    spec fn keyed(&self) -> bool {
        self.vm.key() == self.cache.key@
    }

    /// The key under which the miner hashes.
    pub closed spec fn key(&self) -> Seq<u8> {
        self.cache.key@
    }

    /// The number of threads the miner was made with.
    pub closed spec fn spec_threads(&self) -> usize {
        self.threads
    }

    /// Whether the miner was made for the fast mode.
    pub closed spec fn spec_fast_mode(&self) -> bool {
        self.fast_mode
    }

    /// A miner that hashes under `key`, with the given number of threads,
    /// or one where none is given.
    pub fn new(key: &[u8], threads: Option<usize>, fast_mode: bool) -> (out: Result<
        Self,
        QtcError,
    >)
        ensures
            out matches Ok(miner) && miner.key() == key@ && miner.spec_threads() == (match threads {
                Some(n) => n,
                None => 1,
            }) && miner.spec_fast_mode() == fast_mode,
    {
        let flags = if fast_mode {
            RANDOMX_FLAGS_FAST
        } else {
            RANDOMX_FLAG_DEFAULT
        };
        let mut cache = RandomXCache { key: Vec::new(), initialized: false };
        let _ = cache.init(key);
        let cache = Arc::new(cache);
        let seed = RandomXVM::derive_seed(cache.key.as_slice());
        let vm = RandomXVM { cache: cache.clone(), seed };
        let thread_count = match threads {
            Some(n) => n,
            None => 1,
        };
        Ok(RandomXMiner { vm, cache, threads: thread_count, fast_mode })
    }

    /// The proof-of-work hash of `input` under the miner's key.
    pub fn hash(&self, input: &[u8]) -> (out: Result<RandomXHash, QtcError>)
        ensures
            out matches Ok(h) && h@ == pow_hash(self.key(), input@),
    {
        proof {
            use_type_invariant(self);
        }
        self.vm.calculate_hash(input)
    }

    /// The flags of the miner's mode.
    pub fn get_flags(&self) -> (flags: u32)
        ensures
            flags == if self.spec_fast_mode() {
                RANDOMX_FLAGS_FAST
            } else {
                RANDOMX_FLAG_DEFAULT
            },
    {
        if self.fast_mode {
            RANDOMX_FLAGS_FAST
        } else {
            RANDOMX_FLAG_DEFAULT
        }
    }

    pub fn thread_count(&self) -> (n: usize)
        ensures
            n == self.spec_threads(),
    {
        self.threads
    }

    pub fn is_fast_mode(&self) -> (fast: bool)
        ensures
            fast == self.spec_fast_mode(),
    {
        self.fast_mode
    }
}

/// The recommended flags: hard AES, JIT and Argon2.
pub fn get_recommended_flags() -> (flags: u32)
    ensures
        flags == RANDOMX_FLAGS_RECOMMENDED,
        flags == RANDOMX_FLAG_HARD_AES | RANDOMX_FLAG_JIT | RANDOMX_FLAG_ARGON2,
{
    assert(2u32 | 8u32 | 96u32 == 106u32) by (bit_vector);
    RANDOMX_FLAGS_RECOMMENDED
}

/// The memory that a set of flags asks for: 2 GiB with the full-memory
/// flag, 256 MiB without.
pub fn estimate_memory_usage(flags: u32) -> (bytes: usize)
    ensures
        bytes == if flags & RANDOMX_FLAG_FULL_MEM != 0 {
            FULL_MEMORY_BYTES
        } else {
            LIGHT_MEMORY_BYTES
        },
{
    if flags & RANDOMX_FLAG_FULL_MEM != 0 {
        FULL_MEMORY_BYTES
    } else {
        LIGHT_MEMORY_BYTES
    }
}

} // verus!
