//! Public keys and the addresses that are derived from them.

use crate::chain::codec::put_bytes;
use crate::crypto::hash::{
    bytes_equal, double_sha256_digest, hash160_digest, Hash160, Hash256,
};
use crate::crypto::signatures::{ecdsa_accepts, is_compact_signature, Signature, SignatureUtils};
use crate::error::{CryptoReason, QtcError};
use vstd::prelude::*;
use vstd::string::StringExecFns;
use vstd::utf8::encode_utf8;

verus! {

/// The version byte of pay-to-key-hash addresses.
pub const ADDRESS_VERSION: u8 = 0x00;

/// The version byte of post-quantum and of script-hash addresses.
pub const ALTERNATE_VERSION: u8 = 0x05;

/// Whether bytes are a public key of the curve: what
/// `PublicKey::from_slice` accepts.
pub uninterp spec fn is_curve_point(key: Seq<u8>) -> bool;

/// Whether bytes are a private key of the curve: what
/// `SecretKey::from_slice` accepts.
pub uninterp spec fn is_secret_key(key: Seq<u8>) -> bool;

/// The serialized public key of a private key: what
/// `PublicKey::from_secret_key` gives, compressed.
pub uninterp spec fn secp_public_key(secret: Seq<u8>) -> Seq<u8>;

/// The base-58 text of a byte string: what `bs58::encode` gives.
pub uninterp spec fn base58_text(data: Seq<u8>) -> Seq<char>;

/// The bytes that a base-58 text, given in UTF-8, spells, if it spells
/// any: what `bs58::decode` reads.
pub uninterp spec fn base58_bytes(text: Seq<u8>) -> Option<Seq<u8>>;

/// `secp256k1::PublicKey::from_slice`: whether the bytes are taken as a
/// public key, a function of the bytes alone.
#[verifier::external_body]
pub(crate) fn curve_point_ok(bytes: &[u8]) -> (ok: bool)
    ensures
        ok == is_curve_point(bytes@),
{
    match secp256k1::PublicKey::from_slice(bytes) {
        Ok(_) => true,
        Err(_) => false,
    }
}

/// `secp256k1::SecretKey::from_slice`: whether the bytes are taken as a
/// private key, a function of the bytes alone.
#[verifier::external_body]
pub(crate) fn secret_key_ok(bytes: &[u8]) -> (ok: bool)
    ensures
        ok == is_secret_key(bytes@),
{
    match secp256k1::SecretKey::from_slice(bytes) {
        Ok(_) => true,
        Err(_) => false,
    }
}

/// `secp256k1::PublicKey::from_secret_key`: the public key of a private
/// key in its compressed form, a function of the private key alone. The
/// key must be one that the curve takes.
#[verifier::external_body]
pub(crate) fn public_key_of_secret(secret: &[u8; 32]) -> (public: Vec<u8>)
    requires
        is_secret_key(secret@),
    ensures
        public@ == secp_public_key(secret@),
{
    let key = secp256k1::SecretKey::from_slice(secret).unwrap();
    secp256k1::PublicKey::from_secret_key(&secp256k1::Secp256k1::signing_only(), &key)
        .serialize()
        .to_vec()
}

/// `rand::rngs::OsRng::fill_bytes`: 32 bytes from the system's source of
/// randomness. Nothing is promised of them.
#[verifier::external_body]
pub(crate) fn random_bytes32() -> (bytes: [u8; 32]) {
    let mut bytes = [0u8; 32];
    rand::RngCore::fill_bytes(&mut rand::rngs::OsRng, &mut bytes);
    bytes
}

/// `bs58::encode`: the base-58 text of the bytes in the Bitcoin alphabet,
/// a function of the bytes alone.
#[verifier::external_body]
pub(crate) fn base58_encode(data: &[u8]) -> (text: String)
    ensures
        text@ == base58_text(data@),
{
    bs58::encode(data).into_string()
}

/// `bs58::decode`: the bytes that the text spells in base 58, or nothing
/// where it holds a character outside the alphabet, a function of the
/// text alone.
#[verifier::external_body]
pub(crate) fn base58_decode(text: &[u8]) -> (data: Option<Vec<u8>>)
    ensures
        data is Some <==> base58_bytes(text@) is Some,
        data matches Some(bytes) ==> Some(bytes@) == base58_bytes(text@),
{
    match bs58::decode(text).into_vec() {
        Ok(bytes) => Some(bytes),
        Err(_) => None,
    }
}

/// The payload of an address: the version byte, the 20-byte hash and the
/// first four bytes of the double SHA-256 digest of both.
pub open spec fn address_payload(version: u8, hash: Seq<u8>) -> Seq<u8> {
    seq![version] + hash + double_sha256_digest(seq![version] + hash).subrange(0, 4)
}

/// Whether a payload is well formed for a version: 25 bytes, that version,
/// and a checksum that verifies.
pub open spec fn payload_valid(payload: Seq<u8>, version: u8) -> bool {
    &&& payload.len() == 25
    &&& payload[0] == version
    &&& payload.subrange(21, 25) == double_sha256_digest(payload.subrange(0, 21)).subrange(0, 4)
}

/// What stands after the tag of an address text in UTF-8, if the text
/// starts with the tag.
pub open spec fn after_tag(address: Seq<u8>, tag: Seq<u8>) -> Option<Seq<u8>> {
    if address.len() >= tag.len() && address.subrange(0, tag.len() as int) == tag {
        Some(address.subrange(tag.len() as int, address.len() as int))
    } else {
        None
    }
}

/// The first reason for which an address text, given in UTF-8, is refused
/// for a tag and a version, if any: it starts with the tag; what follows
/// is base 58; the decoded payload has 25 bytes and the version; the
/// checksum verifies.
pub open spec fn address_defect(address: Seq<u8>, tag: Seq<u8>, version: u8) -> Option<
    CryptoReason,
> {
    match after_tag(address, tag) {
        None => Some(CryptoReason::AddressPrefix),
        Some(rest) => match base58_bytes(rest) {
            None => Some(CryptoReason::AddressEncoding),
            Some(payload) => if payload.len() != 25 || payload[0] != version {
                Some(CryptoReason::AddressFormat)
            } else if !payload_valid(payload, version) {
                Some(CryptoReason::AddressChecksum)
            } else {
                None
            },
        },
    }
}

/// The 20-byte hash that a valid address text names.
pub open spec fn address_hash(address: Seq<u8>, tag: Seq<u8>) -> Seq<u8> {
    base58_bytes(after_tag(address, tag)->0)->0.subrange(1, 21)
}

/// The tag of ordinary addresses, `qtc`, in UTF-8.
pub open spec fn qtc_tag() -> Seq<u8> {
    seq![0x71u8, 0x74, 0x63]
}

/// The tag of post-quantum addresses, `qtc-pqc`, in UTF-8.
pub open spec fn pqc_tag() -> Seq<u8> {
    seq![0x71u8, 0x74, 0x63, 0x2d, 0x70, 0x71, 0x63]
}

/// Reads an address text, given in UTF-8, for a tag and a version, and
/// gives the 20-byte hash it names.
pub fn decode_address(address: &[u8], tag: &[u8], version: u8) -> (out: Result<
    Hash160,
    CryptoReason,
>)
    ensures
        out is Ok <==> address_defect(address@, tag@, version) is None,
        out matches Ok(hash) ==> hash@ == address_hash(address@, tag@),
        out matches Err(reason) ==> Some(reason) == address_defect(address@, tag@, version),
{
    if address.len() < tag.len() {
        return Err(CryptoReason::AddressPrefix);
    }
    let head = vstd::slice::slice_subrange(address, 0, tag.len());
    if !bytes_equal(head, tag) {
        return Err(CryptoReason::AddressPrefix);
    }
    let rest = vstd::slice::slice_subrange(address, tag.len(), address.len());
    let decoded = match base58_decode(rest) {
        None => {
            return Err(CryptoReason::AddressEncoding);
        },
        Some(bytes) => bytes,
    };
    if decoded.len() != 25 || decoded[0] != version {
        return Err(CryptoReason::AddressFormat);
    }
    let data = vstd::slice::slice_subrange(decoded.as_slice(), 0, 21);
    let checksum = vstd::slice::slice_subrange(decoded.as_slice(), 21, 25);
    let digest = Hash256::double_hash(data);
    let expected = vstd::slice::slice_subrange(digest.as_bytes().as_slice(), 0, 4);
    if !bytes_equal(expected, checksum) {
        return Err(CryptoReason::AddressChecksum);
    }
    let mut hash = [0u8; 20];
    let mut i: usize = 0;
    while i < 20
        invariant
            i <= 20,
            decoded@.len() == 25,
            forall|j: int| 0 <= j < i ==> hash@[j] == decoded@[1 + j],
        decreases 20 - i,
    {
        hash[i] = decoded[1 + i];
        i += 1;
    }
    let hash = Hash160::new(hash);
    assert(hash@ =~= decoded@.subrange(1, 21));
    Ok(hash)
}

/// The address text for a version and a 20-byte hash under a tag: the tag
/// and the base-58 text of the payload.
pub fn encode_address(tag: &str, version: u8, hash: &[u8]) -> (address: String)
    ensures
        address@ == tag@ + base58_text(address_payload(version, hash@)),
{
    let mut data: Vec<u8> = Vec::new();
    data.push(version);
    put_bytes(&mut data, hash);
    let digest = Hash256::double_hash(data.as_slice());
    let checksum = vstd::slice::slice_subrange(digest.as_bytes().as_slice(), 0, 4);
    assert(data@ =~= seq![version] + hash@);
    put_bytes(&mut data, checksum);
    assert(data@ =~= address_payload(version, hash@));
    let encoded = base58_encode(data.as_slice());
    String::from_str(tag).concat(encoded.as_str())
}

/// A public key of the curve in its serialized form.
#[derive(Debug, Eq)]
pub struct PublicKey {
    key: Vec<u8>,
}

impl Clone for PublicKey {
    fn clone(&self) -> (copy: Self)
        ensures
            copy@ == self@,
    {
        proof {
            use_type_invariant(self);
        }
        PublicKey { key: self.key.clone() }
    }
}

impl View for PublicKey {
    type V = Seq<u8>;

    closed spec fn view(&self) -> Seq<u8> {
        self.key@
    }
}

impl PartialEq for PublicKey {
    fn eq(&self, other: &Self) -> (same: bool) {
        bytes_equal(self.key.as_slice(), other.key.as_slice())
    }
}

impl vstd::std_specs::cmp::PartialEqSpecImpl for PublicKey {
    open spec fn obeys_eq_spec() -> bool {
        true
    }

    open spec fn eq_spec(&self, other: &Self) -> bool {
        self@ == other@
    }
}

impl PublicKey {
    /// The bytes are 33 or 65 and a point of the curve.
    #[verifier::type_invariant]
    spec fn on_curve(&self) -> bool {
        (self.key@.len() == 33 || self.key@.len() == 65) && is_curve_point(self.key@)
    }

    /// The key that 33 or 65 bytes spell, where they are a point of the
    /// curve.
    pub fn from_bytes(bytes: &[u8]) -> (out: Result<Self, QtcError>)
        ensures
            out is Ok <==> (bytes@.len() == 33 || bytes@.len() == 65) && is_curve_point(bytes@),
            out matches Ok(key) ==> key@ == bytes@,
            out matches Err(e) ==> e == if bytes@.len() != 33 && bytes@.len() != 65 {
                QtcError::Crypto(CryptoReason::PublicKeyLength)
            } else {
                QtcError::Crypto(CryptoReason::InvalidPublicKey)
            },
    {
        if bytes.len() != 33 && bytes.len() != 65 {
            return Err(QtcError::Crypto(CryptoReason::PublicKeyLength));
        }
        if !curve_point_ok(bytes) {
            return Err(QtcError::Crypto(CryptoReason::InvalidPublicKey));
        }
        Ok(PublicKey { key: vstd::slice::slice_to_vec(bytes) })
    }

    /// The serialized key: 33 or 65 bytes that are a point of the curve.
    pub fn to_bytes(&self) -> (bytes: &[u8])
        ensures
            bytes@ == self@,
            is_curve_point(bytes@),
            bytes@.len() == 33 || bytes@.len() == 65,
    {
        proof {
            use_type_invariant(self);
        }
        self.key.as_slice()
    }

    /// The short hash of the key: RIPEMD-160 of SHA-256.
    pub fn hash160(&self) -> (hash: Hash160)
        ensures
            hash@ == hash160_digest(self@),
    {
        Hash160::hash_sha256(self.key.as_slice())
    }

    /// The address of the key: `qtc` and the base-58 text of the version
    /// byte, the short hash of the key and the checksum.
    pub fn to_address(&self) -> (address: String)
        ensures
            address@ == "qtc"@ + base58_text(
                address_payload(ADDRESS_VERSION, hash160_digest(self@)),
            ),
    {
        let hash = self.hash160();
        encode_address("qtc", ADDRESS_VERSION, hash.as_bytes().as_slice())
    }

    /// Whether `signature` over `message` verifies under the key. A
    /// signature that the curve does not take is refused.
    pub fn verify(&self, message: &Hash256, signature: &Signature) -> (out: Result<bool, QtcError>)
        ensures
            out is Ok <==> is_compact_signature(signature@.compact()),
            out matches Ok(valid) ==> valid == ecdsa_accepts(
                self@,
                message@,
                signature@.compact(),
            ),
            out matches Err(e) ==> e == QtcError::Crypto(CryptoReason::InvalidSignature),
    {
        SignatureUtils::verify(self, message.as_bytes(), signature)
    }
}

/// The version byte of private keys in their text form.
pub const WIF_VERSION: u8 = 0x80;

/// The payload of a private key in its text form: the version byte, the
/// key and the first four bytes of the double SHA-256 digest of both.
pub open spec fn wif_payload(secret: Seq<u8>) -> Seq<u8> {
    seq![WIF_VERSION] + secret + double_sha256_digest(seq![WIF_VERSION] + secret).subrange(0, 4)
}

/// The first reason for which the text form of a private key, given in
/// UTF-8, is refused, if any: it is base 58; the payload has 37 bytes and
/// the version; the checksum verifies; the key is one of the curve.
pub open spec fn wif_defect(text: Seq<u8>) -> Option<CryptoReason> {
    match base58_bytes(text) {
        None => Some(CryptoReason::WifEncoding),
        Some(payload) => if payload.len() != 37 || payload[0] != WIF_VERSION {
            Some(CryptoReason::WifFormat)
        } else if payload.subrange(33, 37) != double_sha256_digest(
            payload.subrange(0, 33),
        ).subrange(0, 4) {
            Some(CryptoReason::WifChecksum)
        } else if !is_secret_key(payload.subrange(1, 33)) {
            Some(CryptoReason::InvalidPrivateKey)
        } else {
            None
        },
    }
}

/// The private key that drawn bytes are, or the reason for which they are
/// none: they are 32 bytes and a key of the curve.
pub open spec fn drawn_private_key(drawn: Seq<u8>) -> Result<Seq<u8>, QtcError> {
    if drawn.len() != 32 {
        Err(QtcError::Crypto(CryptoReason::PrivateKeyLength))
    } else if !is_secret_key(drawn) {
        Err(QtcError::Crypto(CryptoReason::InvalidPrivateKey))
    } else {
        Ok(drawn)
    }
}

/// The private and the public key that drawn bytes give, or the reason for
/// which they give none: the bytes are a private key, and its public key
/// has 33 or 65 bytes and is a point of the curve.
pub open spec fn drawn_key_pair(drawn: Seq<u8>) -> Result<(Seq<u8>, Seq<u8>), QtcError> {
    match drawn_private_key(drawn) {
        Err(e) => Err(e),
        Ok(secret) => {
            let public = secp_public_key(secret);
            if public.len() != 33 && public.len() != 65 {
                Err(QtcError::Crypto(CryptoReason::PublicKeyLength))
            } else if !is_curve_point(public) {
                Err(QtcError::Crypto(CryptoReason::InvalidPublicKey))
            } else {
                Ok((secret, public))
            }
        },
    }
}

/// A private key of the curve.
#[derive(Debug)]
pub struct PrivateKey {
    key: [u8; 32],
}

impl View for PrivateKey {
    type V = Seq<u8>;

    closed spec fn view(&self) -> Seq<u8> {
        self.key@
    }
}

impl Clone for PrivateKey {
    fn clone(&self) -> (copy: Self)
        ensures
            copy@ == self@,
    {
        proof {
            use_type_invariant(self);
        }
        PrivateKey { key: self.key }
    }
}

impl PrivateKey {
    /// The bytes are a private key of the curve.
    #[verifier::type_invariant]
    spec fn on_curve(&self) -> bool {
        is_secret_key(self.key@)
    }

    /// Whether `out` is what 32 drawn bytes give as a private key.
    pub open spec fn is_drawn(out: Result<Self, QtcError>, drawn: Seq<u8>) -> bool {
        match drawn_private_key(drawn) {
            Ok(secret) => out matches Ok(key) && key@ == secret,
            Err(e) => out matches Err(refusal) && refusal == e,
        }
    }

    /// A private key from the system's source of randomness: the 32
    /// bytes drawn, or a refusal where they are no key of the curve.
    pub fn new() -> (out: Result<Self, QtcError>)
        ensures
            exists|drawn: Seq<u8>| drawn.len() == 32 && #[trigger] Self::is_drawn(out, drawn),
            out matches Ok(key) ==> is_secret_key(key@),
            out matches Err(e) ==> e == QtcError::Crypto(CryptoReason::InvalidPrivateKey),
    {
        let bytes = random_bytes32();
        let out = Self::from_bytes(bytes.as_slice());
        assert(Self::is_drawn(out, bytes@));
        out
    }

    /// The private key that 32 bytes spell, where they are a key of the
    /// curve.
    pub fn from_bytes(bytes: &[u8]) -> (out: Result<Self, QtcError>)
        ensures
            out is Ok <==> bytes@.len() == 32 && is_secret_key(bytes@),
            out matches Ok(key) ==> key@ == bytes@,
            out matches Err(e) ==> e == if bytes@.len() != 32 {
                QtcError::Crypto(CryptoReason::PrivateKeyLength)
            } else {
                QtcError::Crypto(CryptoReason::InvalidPrivateKey)
            },
    {
        if bytes.len() != 32 {
            return Err(QtcError::Crypto(CryptoReason::PrivateKeyLength));
        }
        if !secret_key_ok(bytes) {
            return Err(QtcError::Crypto(CryptoReason::InvalidPrivateKey));
        }
        let key = crate::crypto::hash::array32_from(bytes);
        assert(key@ =~= bytes@);
        Ok(PrivateKey { key })
    }

    /// The private key that a text form spells.
    pub fn from_wif(wif: &str) -> (out: Result<Self, QtcError>)
        ensures
            out is Ok <==> wif_defect(encode_utf8(wif@)) is None,
            out matches Ok(key) ==> key@ == base58_bytes(encode_utf8(wif@))->0.subrange(1, 33),
            out matches Err(e) ==> Some(e) == (match wif_defect(encode_utf8(wif@)) {
                Some(reason) => Some(QtcError::Crypto(reason)),
                None => None,
            }),
    {
        let decoded = match base58_decode(wif.as_bytes()) {
            None => {
                return Err(QtcError::Crypto(CryptoReason::WifEncoding));
            },
            Some(bytes) => bytes,
        };
        if decoded.len() != 37 || decoded[0] != WIF_VERSION {
            return Err(QtcError::Crypto(CryptoReason::WifFormat));
        }
        let data = vstd::slice::slice_subrange(decoded.as_slice(), 0, 33);
        let checksum = vstd::slice::slice_subrange(decoded.as_slice(), 33, 37);
        let digest = Hash256::double_hash(data);
        let expected = vstd::slice::slice_subrange(digest.as_bytes().as_slice(), 0, 4);
        if !bytes_equal(expected, checksum) {
            return Err(QtcError::Crypto(CryptoReason::WifChecksum));
        }
        let secret = vstd::slice::slice_subrange(decoded.as_slice(), 1, 33);
        Self::from_bytes(secret)
    }

    pub fn to_bytes(&self) -> (bytes: [u8; 32])
        ensures
            bytes@ == self@,
            is_secret_key(bytes@),
    {
        proof {
            use_type_invariant(self);
        }
        self.key
    }

    /// The text form: the base-58 text of the version byte 0x80, the key
    /// and the checksum.
    pub fn to_wif(&self) -> (wif: String)
        ensures
            wif@ == base58_text(wif_payload(self@)),
    {
        let mut data: Vec<u8> = Vec::new();
        data.push(WIF_VERSION);
        put_bytes(&mut data, self.key.as_slice());
        assert(data@ =~= seq![WIF_VERSION] + self@);
        let digest = Hash256::double_hash(data.as_slice());
        let checksum = vstd::slice::slice_subrange(digest.as_bytes().as_slice(), 0, 4);
        put_bytes(&mut data, checksum);
        assert(data@ =~= wif_payload(self@));
        base58_encode(data.as_slice())
    }

    /// The public key of the private key, compressed.
    pub fn public_key(&self) -> (out: Result<PublicKey, QtcError>)
        ensures
            out is Ok <==> (secp_public_key(self@).len() == 33 || secp_public_key(self@).len()
                == 65) && is_curve_point(secp_public_key(self@)),
            out matches Ok(key) ==> key@ == secp_public_key(self@),
            out matches Err(e) ==> e == if secp_public_key(self@).len() != 33 && secp_public_key(
                self@,
            ).len() != 65 {
                QtcError::Crypto(CryptoReason::PublicKeyLength)
            } else {
                QtcError::Crypto(CryptoReason::InvalidPublicKey)
            },
    {
        proof {
            use_type_invariant(self);
        }
        let bytes = public_key_of_secret(&self.key);
        PublicKey::from_bytes(bytes.as_slice())
    }

    /// The signature of the key over `message`, with recovery id 0.
    pub fn sign(&self, message: &Hash256) -> (out: Result<Signature, QtcError>)
        ensures
            out matches Ok(signature) && signature@.compact()
                == crate::crypto::signatures::ecdsa_signature(self@, message@)
                && signature@.recovery_id == 0,
    {
        proof {
            use_type_invariant(self);
        }
        let compact = crate::crypto::signatures::ecdsa_sign(&self.key, message.as_bytes());
        let signature = Signature::from_bytes(compact.as_slice());
        proof {
            if signature is Ok {
                assert(signature->Ok_0@.compact() =~= compact@);
            }
        }
        signature
    }
}

/// A private key with its public key.
#[derive(Debug)]
pub struct KeyPair {
    pub private_key: PrivateKey,
    pub public_key: PublicKey,
}

impl KeyPair {
    /// Whether `out` is what 32 drawn bytes give as a pair of keys.
    pub open spec fn is_drawn(out: Result<Self, QtcError>, drawn: Seq<u8>) -> bool {
        match drawn_key_pair(drawn) {
            Ok(keys) => out matches Ok(pair) && pair.private_key@ == keys.0 && pair.public_key@
                == keys.1,
            Err(e) => out matches Err(refusal) && refusal == e,
        }
    }

    /// A pair from the system's source of randomness: the 32 bytes drawn
    /// as the private key, with the public key of it; or a refusal where
    /// the bytes are no key of the curve or have no public key.
    pub fn new() -> (out: Result<Self, QtcError>)
        ensures
            exists|drawn: Seq<u8>| drawn.len() == 32 && #[trigger] Self::is_drawn(out, drawn),
            out matches Ok(pair) ==> pair.public_key@ == secp_public_key(pair.private_key@),
    {
        let made = PrivateKey::new();
        let ghost drawn = choose|drawn: Seq<u8>|
            drawn.len() == 32 && #[trigger] PrivateKey::is_drawn(made, drawn);
        let private_key = match made {
            Err(e) => {
                let out = Err(e);
                assert(Self::is_drawn(out, drawn));
                return out;
            },
            Ok(k) => k,
        };
        let out = Self::from_private_key(private_key);
        assert(Self::is_drawn(out, drawn));
        out
    }

    /// The pair of a private key.
    pub fn from_private_key(private_key: PrivateKey) -> (out: Result<Self, QtcError>)
        ensures
            out is Ok <==> (secp_public_key(private_key@).len() == 33 || secp_public_key(
                private_key@,
            ).len() == 65) && is_curve_point(secp_public_key(private_key@)),
            out matches Ok(pair) ==> pair.private_key == private_key && pair.public_key@
                == secp_public_key(private_key@),
            out matches Err(e) ==> e == if secp_public_key(private_key@).len() != 33
                && secp_public_key(private_key@).len() != 65 {
                QtcError::Crypto(CryptoReason::PublicKeyLength)
            } else {
                QtcError::Crypto(CryptoReason::InvalidPublicKey)
            },
    {
        let public_key = match private_key.public_key() {
            Err(e) => {
                return Err(e);
            },
            Ok(k) => k,
        };
        Ok(KeyPair { private_key, public_key })
    }

    /// The address of the public key.
    pub fn address(&self) -> (address: String)
        ensures
            address@ == "qtc"@ + base58_text(
                address_payload(ADDRESS_VERSION, hash160_digest(self.public_key@)),
            ),
    {
        self.public_key.to_address()
    }
}

/// The short hash that an ordinary address names.
pub fn address_to_hash160(address: &str) -> (out: Result<Hash160, QtcError>)
    ensures
        out is Ok <==> address_defect(encode_utf8(address@), qtc_tag(), ADDRESS_VERSION) is None,
        out matches Ok(hash) ==> hash@ == address_hash(encode_utf8(address@), qtc_tag()),
        out matches Err(e) ==> Some(e) == (match address_defect(
            encode_utf8(address@),
            qtc_tag(),
            ADDRESS_VERSION,
        ) {
            Some(reason) => Some(QtcError::Crypto(reason)),
            None => None,
        }),
{
    let tag: [u8; 3] = [0x71, 0x74, 0x63];
    assert(tag@ =~= qtc_tag());
    match decode_address(address.as_bytes(), tag.as_slice(), ADDRESS_VERSION) {
        Ok(hash) => Ok(hash),
        Err(reason) => Err(QtcError::Crypto(reason)),
    }
}

/// Whether an address text is a valid ordinary address: it starts with
/// `qtc`, the rest is base 58 of 25 bytes with the version byte 0, and the
/// checksum verifies.
pub fn is_valid_address(address: &str) -> (valid: bool)
    ensures
        valid == address_defect(encode_utf8(address@), qtc_tag(), ADDRESS_VERSION) is None,
{
    address_to_hash160(address).is_ok()
}

} // verus!
