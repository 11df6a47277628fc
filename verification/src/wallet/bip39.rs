//! Mnemonic sentences, the seeds they give and the hierarchy of keys that
//! grows from a seed.
//!
//! A sentence is held by the entropy it spells. The word list, the
//! checksum of a sentence, the stretching of a sentence into a seed and
//! the derivation of one key from another are the work of outside code;
//! which keys are derived, in which order and under which numbers, is
//! decided here.

use crate::crypto::hash::{hash160_digest, sha256_digest, bytes_equal, Hash256};
use crate::crypto::keys::{
    address_payload, base58_text, is_curve_point, is_secret_key, random_bytes32,
    secp_public_key, PrivateKey, ADDRESS_VERSION,
};
use crate::consensus::validation::{first_where, lemma_first_where_is, lemma_first_where_none};
use crate::error::{CryptoReason, QtcError, WalletReason};
use vstd::prelude::*;
use vstd::string::StringExecFns;
use vstd::utf8::encode_utf8;

verus! {

/// The number of bytes of a seed.
pub const SEED_LEN: usize = 64;

/// The number of bytes of a serialized extended key.
pub const EXTENDED_KEY_LEN: usize = 78;

/// The number of words of the word list.
pub const WORD_LIST_LEN: usize = 2048;

/// The child numbers from this one on are hardened.
pub const HARDENED: u32 = 0x8000_0000;

/// The purpose under which accounts are derived.
pub const PURPOSE: u32 = 44;

/// The coin type under which accounts are derived.
pub const COIN_TYPE: u32 = 0;

/// Where the private key starts in a serialized extended key.
pub const SECRET_OFFSET: usize = 46;

/// The sentence of an entropy: what `Mnemonic::from_entropy` displays.
pub uninterp spec fn bip39_phrase(entropy: Seq<u8>) -> Seq<char>;

/// The words of the sentence of an entropy, in order: what
/// `Mnemonic::words` walks.
pub uninterp spec fn bip39_words(entropy: Seq<u8>) -> Seq<Seq<char>>;

/// The entropy that an English sentence spells, if it is one: what
/// `Mnemonic::parse_in_normalized` reads.
pub uninterp spec fn bip39_entropy(phrase: Seq<char>) -> Option<Seq<u8>>;

/// The seed of the sentence of an entropy under a passphrase: what
/// `Mnemonic::to_seed` gives.
pub uninterp spec fn bip39_seed(entropy: Seq<u8>, passphrase: Seq<char>) -> Seq<u8>;

/// The word at an index of the English word list.
pub uninterp spec fn bip39_word(index: int) -> Seq<char>;

/// Whether bytes are a serialized extended private key: what
/// `Xpriv::decode` accepts.
pub uninterp spec fn is_xpriv(key: Seq<u8>) -> bool;

/// The serialized master key of a seed, if the seed gives one: what
/// `Xpriv::new_master` gives.
pub uninterp spec fn xpriv_master(seed: Seq<u8>) -> Option<Seq<u8>>;

/// The serialized child of a serialized extended private key under a child
/// number, if it has one: what `Xpriv::derive_priv` gives for a path of
/// that one number.
pub uninterp spec fn xpriv_child(key: Seq<u8>, number: u32) -> Option<Seq<u8>>;

/// The text of a serialized extended private key: what `Xpriv` displays.
pub uninterp spec fn xpriv_text(key: Seq<u8>) -> Seq<char>;

/// The text of the extended public key of a serialized extended private
/// key: what `Xpub::from_priv` displays.
pub uninterp spec fn xpub_text(key: Seq<u8>) -> Seq<char>;

/// Whether a sentence can have that many bytes of entropy.
pub open spec fn is_entropy_len(len: int) -> bool {
    len == 16 || len == 20 || len == 24 || len == 28 || len == 32
}

/// The bytes of entropy of a sentence of `word_count` words, if a sentence
/// can have that many.
pub open spec fn entropy_len_for(word_count: u32) -> Option<usize> {
    if word_count == 12 {
        Some(16usize)
    } else if word_count == 15 {
        Some(20usize)
    } else if word_count == 18 {
        Some(24usize)
    } else if word_count == 21 {
        Some(28usize)
    } else if word_count == 24 {
        Some(32usize)
    } else {
        None
    }
}

/// The texts of a sequence of strings.
pub open spec fn texts(words: Seq<String>) -> Seq<Seq<char>> {
    words.map_values(|w: String| w@)
}

/// `bip39::Mnemonic::from_entropy`, displayed: the English sentence of the
/// entropy, a function of the entropy alone; read back, the sentence
/// spells the entropy it was made from. The entropy must have a length
/// that a sentence can have.
#[verifier::external_body]
fn phrase_of_entropy(entropy: &[u8]) -> (phrase: String)
    requires
        is_entropy_len(entropy@.len() as int),
    ensures
        phrase@ == bip39_phrase(entropy@),
        bip39_entropy(phrase@) == Some(entropy@),
{
    ::bip39::Mnemonic::from_entropy(entropy).unwrap().to_string()
}

/// `bip39::Mnemonic::words`: the words of the English sentence of the
/// entropy, three for every four bytes, a function of the entropy alone.
#[verifier::external_body]
fn words_of_entropy(entropy: &[u8]) -> (words: Vec<String>)
    requires
        is_entropy_len(entropy@.len() as int),
    ensures
        texts(words@) == bip39_words(entropy@),
        words@.len() == entropy@.len() / 4 * 3,
{
    ::bip39::Mnemonic::from_entropy(entropy).unwrap().words().map(String::from).collect()
}

/// `bip39::Mnemonic::parse_in_normalized` for English, and `to_entropy`:
/// the entropy that the sentence spells, or nothing where it has a wrong
/// number of words, a word outside the list or a wrong checksum; a
/// function of the text alone. A sentence has 12 to 24 words in steps of
/// three, so its entropy has 16 to 32 bytes in steps of four.
#[verifier::external_body]
fn entropy_of_phrase(phrase: &str) -> (entropy: Option<Vec<u8>>)
    ensures
        entropy is Some <==> bip39_entropy(phrase@) is Some,
        entropy matches Some(e) ==> bip39_entropy(phrase@) == Some(e@) && is_entropy_len(
            e@.len() as int,
        ),
{
    match ::bip39::Mnemonic::parse_in_normalized(::bip39::Language::English, phrase) {
        Ok(mnemonic) => Some(mnemonic.to_entropy()),
        Err(_) => None,
    }
}

/// `bip39::Mnemonic::to_seed`: the 64 bytes into which the sentence of the
/// entropy is stretched under the passphrase, a function of both alone.
#[verifier::external_body]
fn seed_of_entropy(entropy: &[u8], passphrase: &str) -> (seed: Vec<u8>)
    requires
        is_entropy_len(entropy@.len() as int),
    ensures
        seed@ == bip39_seed(entropy@, passphrase@),
        seed@.len() == SEED_LEN,
{
    ::bip39::Mnemonic::from_entropy(entropy).unwrap().to_seed(passphrase).to_vec()
}

/// `bip39::Language::word_list` for English: the word at an index of the
/// list of 2048 words.
#[verifier::external_body]
fn english_word_at(index: usize) -> (word: &'static str)
    requires
        index < WORD_LIST_LEN,
    ensures
        word@ == bip39_word(index as int),
{
    ::bip39::Language::English.word_list()[index]
}

/// `bitcoin::bip32::Xpriv::decode`: whether the bytes are taken as a
/// serialized extended private key, a function of the bytes alone.
#[verifier::external_body]
fn xpriv_ok(key: &[u8]) -> (ok: bool)
    ensures
        ok == is_xpriv(key@),
{
    match bitcoin::bip32::Xpriv::decode(key) {
        Ok(_) => true,
        Err(_) => false,
    }
}

/// `bitcoin::bip32::Xpriv::new_master` for the main network, serialized by
/// `Xpriv::encode`: the 78 bytes of the master key of a seed, or nothing
/// where the seed gives no key; a function of the seed alone. What
/// `encode` writes, `decode` accepts.
#[verifier::external_body]
fn master_of_seed(seed: &[u8]) -> (key: Option<Vec<u8>>)
    ensures
        key is Some <==> xpriv_master(seed@) is Some,
        key matches Some(k) ==> xpriv_master(seed@) == Some(k@) && k@.len() == EXTENDED_KEY_LEN
            && is_xpriv(k@),
{
    match bitcoin::bip32::Xpriv::new_master(bitcoin::NetworkKind::Main, seed) {
        Ok(master) => Some(master.encode().to_vec()),
        Err(_) => None,
    }
}

/// `bitcoin::bip32::Xpriv::derive_priv` on a path of one child number,
/// between `Xpriv::decode` and `Xpriv::encode`: the 78 bytes of the child
/// of a key, or nothing where the key is 255 levels deep; a function of
/// the key and the number alone. The outside code stops the program where
/// the digest it draws is no key of the curve, which it calls
/// statistically impossible.
#[verifier::external_body]
fn child_of_key(key: &[u8], number: u32) -> (child: Option<Vec<u8>>)
    requires
        is_xpriv(key@),
    ensures
        child is Some <==> xpriv_child(key@, number) is Some,
        child matches Some(k) ==> xpriv_child(key@, number) == Some(k@) && k@.len()
            == EXTENDED_KEY_LEN && is_xpriv(k@),
{
    let parent = bitcoin::bip32::Xpriv::decode(key).unwrap();
    let step = [bitcoin::bip32::ChildNumber::from(number)];
    match parent.derive_priv(&bitcoin::secp256k1::Secp256k1::signing_only(), &step) {
        Ok(child) => Some(child.encode().to_vec()),
        Err(_) => None,
    }
}

/// `Xpriv`'s `Display`: the text of a serialized extended private key, a
/// function of the key alone.
#[verifier::external_body]
fn xpriv_string(key: &[u8]) -> (text: String)
    requires
        is_xpriv(key@),
    ensures
        text@ == xpriv_text(key@),
{
    bitcoin::bip32::Xpriv::decode(key).unwrap().to_string()
}

/// `bitcoin::bip32::Xpub::from_priv`, displayed: the text of the extended
/// public key of a serialized extended private key, a function of the key
/// alone.
#[verifier::external_body]
fn xpub_string(key: &[u8]) -> (text: String)
    requires
        is_xpriv(key@),
    ensures
        text@ == xpub_text(key@),
{
    let private = bitcoin::bip32::Xpriv::decode(key).unwrap();
    bitcoin::bip32::Xpub::from_priv(&bitcoin::secp256k1::Secp256k1::signing_only(), &private)
        .to_string()
}

/// A mnemonic sentence, held by the entropy it spells.
#[derive(Debug)]
pub struct Mnemonic {
    entropy: Vec<u8>,
}

impl View for Mnemonic {
    type V = Seq<u8>;

    closed spec fn view(&self) -> Seq<u8> {
        self.entropy@
    }
}

impl Clone for Mnemonic {
    fn clone(&self) -> (copy: Self)
        ensures
            copy@ == self@,
    {
        proof {
            use_type_invariant(self);
        }
        Mnemonic { entropy: self.entropy.clone() }
    }
}

impl Mnemonic {
    /// The entropy has a length that a sentence can have.
    #[verifier::type_invariant]
    spec fn sized(&self) -> bool {
        is_entropy_len(self.entropy@.len() as int)
    }

    /// A sentence of `word_count` words from the system's source of
    /// randomness: 12, 15, 18, 21 or 24 words.
    pub fn new(word_count: u32) -> (out: Result<Self, QtcError>)
        ensures
            out is Ok <==> entropy_len_for(word_count) is Some,
            out matches Ok(m) ==> m@.len() == entropy_len_for(word_count)->0,
            out matches Err(e) ==> e == QtcError::Wallet(WalletReason::InvalidWordCount),
    {
        let size: usize = if word_count == 12 {
            16
        } else if word_count == 15 {
            20
        } else if word_count == 18 {
            24
        } else if word_count == 21 {
            28
        } else if word_count == 24 {
            32
        } else {
            return Err(QtcError::Wallet(WalletReason::InvalidWordCount));
        };
        let drawn = random_bytes32();
        let entropy = vstd::slice::slice_to_vec(
            vstd::slice::slice_subrange(drawn.as_slice(), 0, size),
        );
        Ok(Mnemonic { entropy })
    }

    /// The sentence that an English text spells: the entropy of its words
    /// where it has 12 to 24 of them in steps of three, all of the word
    /// list, and the checksum in its last word verifies.
    pub fn from_phrase(phrase: &str) -> (out: Result<Self, QtcError>)
        ensures
            out is Ok <==> bip39_entropy(phrase@) is Some,
            out matches Ok(m) ==> Some(m@) == bip39_entropy(phrase@),
            out matches Err(e) ==> e == QtcError::Wallet(WalletReason::InvalidPhrase),
    {
        match entropy_of_phrase(phrase) {
            Some(entropy) => Ok(Mnemonic { entropy }),
            None => Err(QtcError::Wallet(WalletReason::InvalidPhrase)),
        }
    }

    /// The entropy of the sentence: 16 to 32 bytes in steps of four.
    pub fn entropy(&self) -> (bytes: &[u8])
        ensures
            bytes@ == self@,
            is_entropy_len(bytes@.len() as int),
    {
        proof {
            use_type_invariant(self);
        }
        self.entropy.as_slice()
    }

    /// The sentence as text. Read back by [`Mnemonic::from_phrase`] it
    /// gives the same sentence.
    pub fn phrase(&self) -> (text: String)
        ensures
            text@ == bip39_phrase(self@),
            bip39_entropy(text@) == Some(self@),
    {
        proof {
            use_type_invariant(self);
        }
        phrase_of_entropy(self.entropy.as_slice())
    }

    /// The number of words: three for every four bytes of entropy.
    pub fn word_count(&self) -> (count: usize)
        ensures
            count == self@.len() / 4 * 3,
            count == 12 || count == 15 || count == 18 || count == 21 || count == 24,
    {
        proof {
            use_type_invariant(self);
        }
        self.entropy.len() / 4 * 3
    }

    /// The words of the sentence, in order.
    pub fn words(&self) -> (words: Vec<String>)
        ensures
            texts(words@) == bip39_words(self@),
            words@.len() == self@.len() / 4 * 3,
    {
        proof {
            use_type_invariant(self);
        }
        words_of_entropy(self.entropy.as_slice())
    }

    /// The seed of the sentence under a passphrase: 64 bytes.
    pub fn to_seed(&self, passphrase: &str) -> (seed: Seed)
        ensures
            seed@ == bip39_seed(self@, passphrase@),
            seed@.len() == SEED_LEN,
    {
        proof {
            use_type_invariant(self);
        }
        Seed { bytes: seed_of_entropy(self.entropy.as_slice(), passphrase) }
    }

    /// Whether an English text is a mnemonic sentence.
    pub fn validate_phrase(phrase: &str) -> (valid: bool)
        ensures
            valid == bip39_entropy(phrase@) is Some,
    {
        entropy_of_phrase(phrase).is_some()
    }

    /// The SHA-256 digest of the sentence as text.
    pub fn hash(&self) -> (digest: Hash256)
        ensures
            digest@ == sha256_digest(encode_utf8(bip39_phrase(self@))),
    {
        let text = self.phrase();
        Hash256::hash(text.as_str().as_bytes())
    }
}

/// The seed of a sentence.
#[derive(Debug)]
pub struct Seed {
    bytes: Vec<u8>,
}

impl View for Seed {
    type V = Seq<u8>;

    closed spec fn view(&self) -> Seq<u8> {
        self.bytes@
    }
}

impl Clone for Seed {
    fn clone(&self) -> (copy: Self)
        ensures
            copy@ == self@,
    {
        Seed { bytes: self.bytes.clone() }
    }
}

impl Seed {
    /// The bytes of the seed.
    pub fn as_bytes(&self) -> (bytes: &[u8])
        ensures
            bytes@ == self@,
    {
        self.bytes.as_slice()
    }

    /// The master key of the seed, where the seed gives one.
    pub fn to_master_key(&self) -> (out: Result<ExtendedKey, QtcError>)
        ensures
            out is Ok <==> xpriv_master(self@) is Some,
            out matches Ok(key) ==> Some(key@) == xpriv_master(self@),
            out matches Err(e) ==> e == QtcError::Wallet(WalletReason::NoMasterKey),
    {
        match master_of_seed(self.bytes.as_slice()) {
            Some(bytes) => Ok(ExtendedKey { bytes }),
            None => Err(QtcError::Wallet(WalletReason::NoMasterKey)),
        }
    }
}

/// Whether bytes are a serialized extended private key of the right
/// length.
pub open spec fn extended_key_valid(key: Seq<u8>) -> bool {
    key.len() == EXTENDED_KEY_LEN && is_xpriv(key)
}

/// The private key inside a serialized extended private key: its last 32
/// bytes.
pub open spec fn key_secret(key: Seq<u8>) -> Seq<u8> {
    key.subrange(SECRET_OFFSET as int, EXTENDED_KEY_LEN as int)
}

/// An extended private key in its serialized form of 78 bytes.
#[derive(Debug)]
pub struct ExtendedKey {
    bytes: Vec<u8>,
}

impl View for ExtendedKey {
    type V = Seq<u8>;

    closed spec fn view(&self) -> Seq<u8> {
        self.bytes@
    }
}

impl Clone for ExtendedKey {
    fn clone(&self) -> (copy: Self)
        ensures
            copy@ == self@,
    {
        proof {
            use_type_invariant(self);
        }
        ExtendedKey { bytes: self.bytes.clone() }
    }
}

impl ExtendedKey {
    /// The bytes are a serialized extended private key.
    #[verifier::type_invariant]
    spec fn valid(&self) -> bool {
        extended_key_valid(self.bytes@)
    }

    /// The extended key that 78 bytes spell.
    pub fn decode(bytes: &[u8]) -> (out: Result<Self, QtcError>)
        ensures
            out is Ok <==> extended_key_valid(bytes@),
            out matches Ok(key) ==> key@ == bytes@,
            out matches Err(e) ==> e == QtcError::Wallet(WalletReason::InvalidMasterKey),
    {
        if bytes.len() != EXTENDED_KEY_LEN || !xpriv_ok(bytes) {
            return Err(QtcError::Wallet(WalletReason::InvalidMasterKey));
        }
        Ok(ExtendedKey { bytes: vstd::slice::slice_to_vec(bytes) })
    }

    /// The serialized key.
    pub fn encode(&self) -> (bytes: &[u8])
        ensures
            bytes@ == self@,
            extended_key_valid(bytes@),
    {
        proof {
            use_type_invariant(self);
        }
        self.bytes.as_slice()
    }

    /// The bytes of the private key inside.
    pub fn secret_bytes(&self) -> (secret: &[u8])
        ensures
            secret@ == key_secret(self@),
            secret@.len() == 32,
    {
        proof {
            use_type_invariant(self);
        }
        vstd::slice::slice_subrange(self.bytes.as_slice(), SECRET_OFFSET, EXTENDED_KEY_LEN)
    }

    /// The child of the key under a child number, where it has one.
    pub fn child(&self, number: u32) -> (out: Result<ExtendedKey, QtcError>)
        ensures
            out is Ok <==> xpriv_child(self@, number) is Some,
            out matches Ok(key) ==> Some(key@) == xpriv_child(self@, number),
            out matches Err(e) ==> e == QtcError::Wallet(WalletReason::NoChildKey),
    {
        proof {
            use_type_invariant(self);
        }
        match child_of_key(self.bytes.as_slice(), number) {
            Some(bytes) => Ok(ExtendedKey { bytes }),
            None => Err(QtcError::Wallet(WalletReason::NoChildKey)),
        }
    }
}

/// The key at the end of a path of child numbers from a key, if every step
/// has a child.
pub open spec fn derived(key: Seq<u8>, path: Seq<u32>) -> Option<Seq<u8>>
    decreases path.len(),
{
    if path.len() == 0 {
        Some(key)
    } else {
        match derived(key, path.drop_last()) {
            Some(parent) => xpriv_child(parent, path.last()),
            None => None,
        }
    }
}

/// The path of an account below the master key: purpose, coin type and
/// account, all hardened.
pub open spec fn account_path(account: u32) -> Seq<u32>
    recommends
        account < HARDENED,
{
    seq![(HARDENED + PURPOSE) as u32, (HARDENED + COIN_TYPE) as u32, (HARDENED + account) as u32]
}

/// The child number of the chain of an account: 1 for change, 0 for
/// receiving.
pub open spec fn chain_number(change: bool) -> u32 {
    if change {
        1
    } else {
        0
    }
}

/// The key of an account below a master key, or the reason for which there
/// is none: the master key is well formed; the account is below 2^31;
/// every step of the path has a child.
pub open spec fn account_key(master: Seq<u8>, account: u32) -> Result<Seq<u8>, QtcError> {
    if !extended_key_valid(master) {
        Err(QtcError::Wallet(WalletReason::InvalidMasterKey))
    } else if account >= HARDENED {
        Err(QtcError::Wallet(WalletReason::InvalidChildNumber))
    } else {
        match derived(master, account_path(account)) {
            Some(key) => Ok(key),
            None => Err(QtcError::Wallet(WalletReason::NoChildKey)),
        }
    }
}

/// The key of an address below a master key, or the reason for which there
/// is none: the account has a key; the index is below 2^31; the account's
/// key has the chain as a child, and the chain the index.
pub open spec fn address_key(master: Seq<u8>, account: u32, change: bool, index: u32) -> Result<
    Seq<u8>,
    QtcError,
> {
    match account_key(master, account) {
        Err(e) => Err(e),
        Ok(key) => if index >= HARDENED {
            Err(QtcError::Wallet(WalletReason::InvalidChildNumber))
        } else {
            match derived(key, seq![chain_number(change), index]) {
                Some(key) => Ok(key),
                None => Err(QtcError::Wallet(WalletReason::NoChildKey)),
            }
        },
    }
}

/// The private key of an address below a master key, or the reason for
/// which there is none: the address has a key, and the private key inside
/// it is one of the curve.
pub open spec fn address_secret(master: Seq<u8>, account: u32, change: bool, index: u32) -> Result<
    Seq<u8>,
    QtcError,
> {
    match address_key(master, account, change, index) {
        Err(e) => Err(e),
        Ok(key) => if is_secret_key(key_secret(key)) {
            Ok(key_secret(key))
        } else {
            Err(QtcError::Crypto(CryptoReason::InvalidPrivateKey))
        },
    }
}

/// The address text of a private key: that of its public key.
pub open spec fn secret_address(secret: Seq<u8>) -> Seq<char> {
    "qtc"@ + base58_text(address_payload(ADDRESS_VERSION, hash160_digest(secp_public_key(secret))))
}

/// The address at an index below a master key, or the reason for which
/// there is none: the address has a private key, and that key a public
/// key of 33 or 65 bytes on the curve.
pub open spec fn address_at(master: Seq<u8>, account: u32, change: bool, index: u32) -> Result<
    Seq<char>,
    QtcError,
> {
    match address_secret(master, account, change, index) {
        Err(e) => Err(e),
        Ok(secret) => {
            let public = secp_public_key(secret);
            if public.len() != 33 && public.len() != 65 {
                Err(QtcError::Crypto(CryptoReason::PublicKeyLength))
            } else if !is_curve_point(public) {
                Err(QtcError::Crypto(CryptoReason::InvalidPublicKey))
            } else {
                Ok(secret_address(secret))
            }
        },
    }
}

/// A hierarchy of keys below one master key, with the next unused index
/// of each of its two chains.
#[derive(Debug)]
pub struct HdWallet {
    /// The serialized master key.
    pub master_key: Vec<u8>,
    /// The digest of the sentence that the master key came from.
    pub mnemonic_hash: Hash256,
    /// The account whose addresses are handed out.
    pub account_index: u32,
    /// The next unused index of the receiving chain.
    pub next_external_index: u32,
    /// The next unused index of the change chain.
    pub next_internal_index: u32,
}

impl Clone for HdWallet {
    fn clone(&self) -> (copy: Self)
        ensures
            copy.master_key@ == self.master_key@,
            copy.mnemonic_hash@ == self.mnemonic_hash@,
            copy.account_index == self.account_index,
            copy.next_external_index == self.next_external_index,
            copy.next_internal_index == self.next_internal_index,
    {
        HdWallet {
            master_key: self.master_key.clone(),
            mnemonic_hash: self.mnemonic_hash.clone(),
            account_index: self.account_index,
            next_external_index: self.next_external_index,
            next_internal_index: self.next_internal_index,
        }
    }
}

/// The item at a position of a scan over `max_gap` indices of each chain:
/// the receiving chain first, then the change chain.
pub open spec fn scan_item(master: Seq<u8>, account: u32, max_gap: u32, position: int) -> Result<
    Seq<char>,
    QtcError,
> {
    if position < max_gap {
        address_at(master, account, false, position as u32)
    } else {
        address_at(master, account, true, (position - max_gap) as u32)
    }
}

/// Whether a scan fails at a position.
pub open spec fn scan_fails_at(master: Seq<u8>, account: u32, max_gap: u32) -> spec_fn(int) -> bool {
    |position: int| scan_item(master, account, max_gap, position) is Err
}

impl HdWallet {
    /// The hierarchy of a sentence under a passphrase: the master key of
    /// its seed, account 0, both chains at index 0.
    pub fn new(mnemonic: &Mnemonic, passphrase: &str) -> (out: Result<Self, QtcError>)
        ensures
            out is Ok <==> xpriv_master(bip39_seed(mnemonic@, passphrase@)) is Some,
            out matches Ok(wallet) ==> {
                &&& Some(wallet.master_key@) == xpriv_master(bip39_seed(mnemonic@, passphrase@))
                &&& extended_key_valid(wallet.master_key@)
                &&& wallet.mnemonic_hash@ == sha256_digest(encode_utf8(bip39_phrase(mnemonic@)))
                &&& wallet.account_index == 0
                &&& wallet.next_external_index == 0
                &&& wallet.next_internal_index == 0
            },
            out matches Err(e) ==> e == QtcError::Wallet(WalletReason::NoMasterKey),
    {
        let seed = mnemonic.to_seed(passphrase);
        let master = match seed.to_master_key() {
            Err(e) => {
                return Err(e);
            },
            Ok(key) => key,
        };
        Ok(
            HdWallet {
                master_key: vstd::slice::slice_to_vec(master.encode()),
                mnemonic_hash: mnemonic.hash(),
                account_index: 0,
                next_external_index: 0,
                next_internal_index: 0,
            },
        )
    }

    /// The hierarchy of an English sentence, given as text, under a
    /// passphrase.
    pub fn from_mnemonic_phrase(phrase: &str, passphrase: &str) -> (out: Result<Self, QtcError>)
        ensures
            out is Ok <==> bip39_entropy(phrase@) is Some && xpriv_master(
                bip39_seed(bip39_entropy(phrase@)->0, passphrase@),
            ) is Some,
            out matches Ok(wallet) ==> {
                let entropy = bip39_entropy(phrase@)->0;
                &&& Some(wallet.master_key@) == xpriv_master(bip39_seed(entropy, passphrase@))
                &&& wallet.mnemonic_hash@ == sha256_digest(encode_utf8(bip39_phrase(entropy)))
                &&& wallet.account_index == 0
                &&& wallet.next_external_index == 0
                &&& wallet.next_internal_index == 0
            },
            out matches Err(e) ==> e == if bip39_entropy(phrase@) is None {
                QtcError::Wallet(WalletReason::InvalidPhrase)
            } else {
                QtcError::Wallet(WalletReason::NoMasterKey)
            },
    {
        let mnemonic = match Mnemonic::from_phrase(phrase) {
            Err(e) => {
                return Err(e);
            },
            Ok(m) => m,
        };
        Self::new(&mnemonic, passphrase)
    }

    /// The master key, where the stored bytes are one.
    pub fn get_master_key(&self) -> (out: Result<ExtendedKey, QtcError>)
        ensures
            out is Ok <==> extended_key_valid(self.master_key@),
            out matches Ok(key) ==> key@ == self.master_key@,
            out matches Err(e) ==> e == QtcError::Wallet(WalletReason::InvalidMasterKey),
    {
        ExtendedKey::decode(self.master_key.as_slice())
    }

    /// The key of an account: the child of the master key under purpose
    /// 44, coin type 0 and the account, all hardened.
    pub fn derive_account_key(&self, account: u32) -> (out: Result<ExtendedKey, QtcError>)
        ensures
            out is Ok <==> account_key(self.master_key@, account) is Ok,
            out matches Ok(key) ==> Ok::<Seq<u8>, QtcError>(key@) == account_key(
                self.master_key@,
                account,
            ),
            out matches Err(e) ==> Err::<Seq<u8>, QtcError>(e) == account_key(
                self.master_key@,
                account,
            ),
    {
        let master = match self.get_master_key() {
            Err(e) => {
                return Err(e);
            },
            Ok(key) => key,
        };
        if account >= HARDENED {
            return Err(QtcError::Wallet(WalletReason::InvalidChildNumber));
        }
        let ghost path = account_path(account);
        assert(path.drop_last().drop_last().drop_last() =~= Seq::<u32>::empty());
        assert(path.drop_last().drop_last() =~= seq![(HARDENED + PURPOSE) as u32]);
        assert(path.drop_last() =~= seq![
            (HARDENED + PURPOSE) as u32,
            (HARDENED + COIN_TYPE) as u32,
        ]);
        assert(derived(master@, path.drop_last().drop_last().drop_last()) == Some(master@));
        let purpose = match master.child(HARDENED + PURPOSE) {
            Err(e) => {
                return Err(e);
            },
            Ok(key) => key,
        };
        assert(derived(master@, path.drop_last().drop_last()) == Some(purpose@));
        let coin = match purpose.child(HARDENED + COIN_TYPE) {
            Err(e) => {
                return Err(e);
            },
            Ok(key) => key,
        };
        assert(derived(master@, path.drop_last()) == Some(coin@));
        coin.child(HARDENED + account)
    }

    /// The key of an address: the child of the account's key under the
    /// chain, 1 for change and 0 for receiving, and the index.
    pub fn derive_address_key(&self, account: u32, change: bool, index: u32) -> (out: Result<
        ExtendedKey,
        QtcError,
    >)
        ensures
            out is Ok <==> address_key(self.master_key@, account, change, index) is Ok,
            out matches Ok(key) ==> Ok::<Seq<u8>, QtcError>(key@) == address_key(
                self.master_key@,
                account,
                change,
                index,
            ),
            out matches Err(e) ==> Err::<Seq<u8>, QtcError>(e) == address_key(
                self.master_key@,
                account,
                change,
                index,
            ),
    {
        let account_key = match self.derive_account_key(account) {
            Err(e) => {
                return Err(e);
            },
            Ok(key) => key,
        };
        if index >= HARDENED {
            return Err(QtcError::Wallet(WalletReason::InvalidChildNumber));
        }
        let chain: u32 = if change {
            1
        } else {
            0
        };
        let ghost path = seq![chain_number(change), index];
        assert(path.drop_last() =~= seq![chain_number(change)]);
        assert(path.drop_last().drop_last() =~= Seq::<u32>::empty());
        assert(derived(account_key@, path.drop_last().drop_last()) == Some(account_key@));
        let chain_key = match account_key.child(chain) {
            Err(e) => {
                return Err(e);
            },
            Ok(key) => key,
        };
        assert(derived(account_key@, path.drop_last()) == Some(chain_key@));
        chain_key.child(index)
    }

    /// The private key of the address at an index of a chain of the
    /// wallet's account.
    pub fn get_private_key_for_address(&self, change: bool, index: u32) -> (out: Result<
        PrivateKey,
        QtcError,
    >)
        ensures
            out is Ok <==> address_secret(self.master_key@, self.account_index, change, index)
                is Ok,
            out matches Ok(key) ==> Ok::<Seq<u8>, QtcError>(key@) == address_secret(
                self.master_key@,
                self.account_index,
                change,
                index,
            ),
            out matches Err(e) ==> Err::<Seq<u8>, QtcError>(e) == address_secret(
                self.master_key@,
                self.account_index,
                change,
                index,
            ),
    {
        let extended = match self.derive_address_key(self.account_index, change, index) {
            Err(e) => {
                return Err(e);
            },
            Ok(key) => key,
        };
        PrivateKey::from_bytes(extended.secret_bytes())
    }

    /// The address at an index of a chain of the wallet's account.
    pub fn get_address_at_index(&self, change: bool, index: u32) -> (out: Result<String, QtcError>)
        ensures
            out is Ok <==> address_at(self.master_key@, self.account_index, change, index) is Ok,
            out matches Ok(address) ==> Ok::<Seq<char>, QtcError>(address@) == address_at(
                self.master_key@,
                self.account_index,
                change,
                index,
            ),
            out matches Err(e) ==> Err::<Seq<char>, QtcError>(e) == address_at(
                self.master_key@,
                self.account_index,
                change,
                index,
            ),
    {
        let private_key = match self.get_private_key_for_address(change, index) {
            Err(e) => {
                return Err(e);
            },
            Ok(key) => key,
        };
        let public_key = match private_key.public_key() {
            Err(e) => {
                return Err(e);
            },
            Ok(key) => key,
        };
        Ok(public_key.to_address())
    }

    /// Hands out the next address of a chain: the address at the chain's
    /// next unused index, with that index, and the index moves on by one.
    /// Where there is no such address the wallet stays as it was.
    pub fn get_next_address(&mut self, change: bool) -> (out: Result<(String, u32), QtcError>)
        ensures
            final(self).master_key@ == old(self).master_key@,
            final(self).mnemonic_hash == old(self).mnemonic_hash,
            final(self).account_index == old(self).account_index,
            match address_at(
                old(self).master_key@,
                old(self).account_index,
                change,
                if change {
                    old(self).next_internal_index
                } else {
                    old(self).next_external_index
                },
            ) {
                Ok(address) => {
                    &&& out is Ok
                    &&& out->Ok_0.0@ == address
                    &&& change ==> out->Ok_0.1 == old(self).next_internal_index
                        && final(self).next_internal_index == old(self).next_internal_index + 1
                        && final(self).next_external_index == old(self).next_external_index
                    &&& !change ==> out->Ok_0.1 == old(self).next_external_index
                        && final(self).next_external_index == old(self).next_external_index + 1
                        && final(self).next_internal_index == old(self).next_internal_index
                },
                Err(e) => {
                    &&& out == Err::<(String, u32), QtcError>(e)
                    &&& final(self).next_internal_index == old(self).next_internal_index
                    &&& final(self).next_external_index == old(self).next_external_index
                },
            },
    {
        let index = if change {
            self.next_internal_index
        } else {
            self.next_external_index
        };
        let address = match self.get_address_at_index(change, index) {
            Err(e) => {
                return Err(e);
            },
            Ok(text) => text,
        };
        if change {
            self.next_internal_index = index + 1;
        } else {
            self.next_external_index = index + 1;
        }
        Ok((address, index))
    }

    /// The addresses at the first `max_gap` indices of the receiving
    /// chain, then those of the change chain, each with its chain and
    /// index; or the error of the first index that has no address.
    pub fn scan_for_addresses(&self, max_gap: u32) -> (out: Result<
        Vec<(String, bool, u32)>,
        QtcError,
    >)
        ensures
            match first_where(
                2 * max_gap,
                scan_fails_at(self.master_key@, self.account_index, max_gap),
            ) {
                Some(position) => out matches Err(e) && Err::<Seq<char>, QtcError>(e) == scan_item(
                    self.master_key@,
                    self.account_index,
                    max_gap,
                    position,
                ),
                None => out matches Ok(found) && found@.len() == 2 * max_gap && forall|p: int|
                    0 <= p < 2 * max_gap ==> {
                        &&& Ok::<Seq<char>, QtcError>((#[trigger] found@[p]).0@) == scan_item(
                            self.master_key@,
                            self.account_index,
                            max_gap,
                            p,
                        )
                        &&& found@[p].1 == (p >= max_gap)
                        &&& found@[p].2 == if p < max_gap {
                            p
                        } else {
                            p - max_gap
                        }
                    },
            },
    {
        let ghost fails = scan_fails_at(self.master_key@, self.account_index, max_gap);
        let mut found: Vec<(String, bool, u32)> = Vec::new();
        let mut index: u32 = 0;
        while index < max_gap
            invariant
                index <= max_gap,
                fails == scan_fails_at(self.master_key@, self.account_index, max_gap),
                found@.len() == index,
                forall|p: int| 0 <= p < index ==> !#[trigger] fails(p),
                forall|p: int|
                    0 <= p < index ==> {
                        &&& Ok::<Seq<char>, QtcError>((#[trigger] found@[p]).0@) == scan_item(
                            self.master_key@,
                            self.account_index,
                            max_gap,
                            p,
                        )
                        &&& !found@[p].1
                        &&& found@[p].2 == p
                    },
            decreases max_gap - index,
        {
            let address = match self.get_address_at_index(false, index) {
                Err(e) => {
                    proof {
                        assert(fails(index as int));
                        lemma_first_where_is(2 * max_gap, fails, index as int);
                    }
                    return Err(e);
                },
                Ok(text) => text,
            };
            found.push((address, false, index));
            index += 1;
        }
        let mut index: u32 = 0;
        while index < max_gap
            invariant
                index <= max_gap,
                fails == scan_fails_at(self.master_key@, self.account_index, max_gap),
                found@.len() == max_gap + index,
                forall|p: int| 0 <= p < max_gap + index ==> !#[trigger] fails(p),
                forall|p: int|
                    0 <= p < max_gap + index ==> {
                        &&& Ok::<Seq<char>, QtcError>((#[trigger] found@[p]).0@) == scan_item(
                            self.master_key@,
                            self.account_index,
                            max_gap,
                            p,
                        )
                        &&& found@[p].1 == (p >= max_gap)
                        &&& found@[p].2 == if p < max_gap {
                            p
                        } else {
                            p - max_gap
                        }
                    },
            decreases max_gap - index,
        {
            let address = match self.get_address_at_index(true, index) {
                Err(e) => {
                    proof {
                        assert(fails(max_gap + index));
                        lemma_first_where_is(2 * max_gap, fails, max_gap + index);
                    }
                    return Err(e);
                },
                Ok(text) => text,
            };
            found.push((address, true, index));
            index += 1;
        }
        proof {
            lemma_first_where_none(2 * max_gap, fails);
        }
        Ok(found)
    }

    /// The text of the master key.
    pub fn export_xprv(&self) -> (out: Result<String, QtcError>)
        ensures
            out is Ok <==> extended_key_valid(self.master_key@),
            out matches Ok(text) ==> text@ == xpriv_text(self.master_key@),
            out matches Err(e) ==> e == QtcError::Wallet(WalletReason::InvalidMasterKey),
    {
        match self.get_master_key() {
            Err(e) => Err(e),
            Ok(key) => Ok(xpriv_string(key.encode())),
        }
    }

    /// The text of the extended public key of the master key.
    pub fn export_xpub(&self) -> (out: Result<String, QtcError>)
        ensures
            out is Ok <==> extended_key_valid(self.master_key@),
            out matches Ok(text) ==> text@ == xpub_text(self.master_key@),
            out matches Err(e) ==> e == QtcError::Wallet(WalletReason::InvalidMasterKey),
    {
        match self.get_master_key() {
            Err(e) => Err(e),
            Ok(key) => Ok(xpub_string(key.encode())),
        }
    }
}

/// Whether `prefix` is how `text` starts.
pub open spec fn starts_with(text: Seq<u8>, prefix: Seq<u8>) -> bool {
    prefix.len() <= text.len() && text.subrange(0, prefix.len() as int) == prefix
}

/// The words among the first `n` of the word list that start with a
/// prefix, given in UTF-8, in the order of the list.
pub open spec fn words_starting(n: int, prefix: Seq<u8>) -> Seq<Seq<char>>
    decreases n,
{
    if n <= 0 {
        Seq::empty()
    } else if starts_with(encode_utf8(bip39_word(n - 1)), prefix) {
        words_starting(n - 1, prefix).push(bip39_word(n - 1))
    } else {
        words_starting(n - 1, prefix)
    }
}

/// The checksum bits of a sentence as text: the first `count` bits of a
/// byte from the highest down, `1` for a set bit and `0` for a clear one.
pub open spec fn bits_text(byte: u8, count: int) -> Seq<char> {
    Seq::new(
        count as nat,
        |i: int|
            if byte & (0x80u8 >> (i as u8)) != 0 {
                '1'
            } else {
                '0'
            },
    )
}

/// Helpers around sentences and the word list.
pub struct MnemonicUtils;

impl MnemonicUtils {
    /// A sentence of 12 words from the system's source of randomness.
    pub fn generate_12_word() -> (out: Result<Mnemonic, QtcError>)
        ensures
            out matches Ok(m) && m@.len() == 16,
    {
        Mnemonic::new(12)
    }

    /// A sentence of 24 words from the system's source of randomness.
    pub fn generate_24_word() -> (out: Result<Mnemonic, QtcError>)
        ensures
            out matches Ok(m) && m@.len() == 32,
    {
        Mnemonic::new(24)
    }

    /// Whether a word is in the English word list.
    pub fn validate_word(word: &str) -> (known: bool)
        ensures
            known == exists|i: int|
                0 <= i < WORD_LIST_LEN && encode_utf8(#[trigger] bip39_word(i)) == encode_utf8(
                    word@,
                ),
    {
        let mut index: usize = 0;
        while index < WORD_LIST_LEN
            invariant
                index <= WORD_LIST_LEN,
                forall|i: int|
                    0 <= i < index ==> encode_utf8(#[trigger] bip39_word(i)) != encode_utf8(word@),
            decreases WORD_LIST_LEN - index,
        {
            let candidate = english_word_at(index);
            if bytes_equal(candidate.as_bytes(), word.as_bytes()) {
                return true;
            }
            index += 1;
        }
        false
    }

    /// The words of the English word list that start with a prefix, in
    /// the order of the list.
    pub fn suggest_words(prefix: &str) -> (words: Vec<String>)
        ensures
            texts(words@) == words_starting(WORD_LIST_LEN as int, encode_utf8(prefix@)),
    {
        let wanted = prefix.as_bytes();
        let mut words: Vec<String> = Vec::new();
        let mut index: usize = 0;
        while index < WORD_LIST_LEN
            invariant
                index <= WORD_LIST_LEN,
                wanted@ == encode_utf8(prefix@),
                texts(words@) == words_starting(index as int, wanted@),
            decreases WORD_LIST_LEN - index,
        {
            let candidate = english_word_at(index);
            let bytes = candidate.as_bytes();
            if wanted.len() <= bytes.len() && bytes_equal(
                vstd::slice::slice_subrange(bytes, 0, wanted.len()),
                wanted,
            ) {
                let ghost before = words@;
                words.push(String::from_str(candidate));
                assert(texts(words@) =~= texts(before).push(candidate@));
            }
            index += 1;
        }
        words
    }

    /// The checksum bits of an entropy as text: one bit for every four
    /// bytes, taken from the first byte of the entropy's SHA-256 digest,
    /// the highest bit first. An entropy of 36 bytes or more needs more
    /// than that byte and is refused.
    pub fn calculate_checksum(entropy: &[u8]) -> (out: Result<String, QtcError>)
        ensures
            out is Ok <==> entropy@.len() / 4 <= 8,
            out matches Ok(text) ==> text@ == bits_text(
                sha256_digest(entropy@)[0],
                entropy@.len() as int / 4,
            ),
            out matches Err(e) ==> e == QtcError::Wallet(WalletReason::EntropyTooLong),
    {
        let count = entropy.len() / 4;
        if count > 8 {
            return Err(QtcError::Wallet(WalletReason::EntropyTooLong));
        }
        let digest = Hash256::hash(entropy);
        let byte = digest.as_bytes()[0];
        let mut text = String::from_str("");
        let mut i: usize = 0;
        proof {
            reveal_strlit("");
            reveal_strlit("1");
            reveal_strlit("0");
        }
        assert(text@ =~= bits_text(byte, 0));
        while i < count
            invariant
                i <= count <= 8,
                text@ == bits_text(byte, i as int),
                "1"@ == seq!['1'],
                "0"@ == seq!['0'],
            decreases count - i,
        {
            let mask: u8 = 0x80u8 >> (i as u8);
            if byte & mask != 0 {
                text.append("1");
            } else {
                text.append("0");
            }
            assert(text@ =~= bits_text(byte, i + 1));
            i += 1;
        }
        Ok(text)
    }
}

} // verus!
