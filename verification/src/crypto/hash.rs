//! Content hashes: the 32-byte SHA-256 family and the 20-byte short hash
//! used in addresses.

use vstd::prelude::*;

verus! {

/// What SHA-256 maps a byte string to.
pub uninterp spec fn sha256_digest(data: Seq<u8>) -> Seq<u8>;

/// What RIPEMD-160 maps a byte string to.
pub uninterp spec fn ripemd160_digest(data: Seq<u8>) -> Seq<u8>;

/// SHA-256 applied twice.
pub open spec fn double_sha256_digest(data: Seq<u8>) -> Seq<u8> {
    sha256_digest(sha256_digest(data))
}

/// RIPEMD-160 of SHA-256: the short hash of addresses.
pub open spec fn hash160_digest(data: Seq<u8>) -> Seq<u8> {
    ripemd160_digest(sha256_digest(data))
}

/// The lower-case hexadecimal digit for a value below 16.
pub open spec fn hex_digit(v: int) -> char {
    if v < 10 {
        (('0' as int) + v) as char
    } else {
        (('a' as int) + v - 10) as char
    }
}

/// Lower-case hexadecimal text of a byte string, two digits per byte, the
/// high half first.
pub open spec fn hex_text(data: Seq<u8>) -> Seq<char> {
    Seq::new(
        2 * data.len(),
        |i: int|
            if i % 2 == 0 {
                hex_digit((data[i / 2] as int) / 16)
            } else {
                hex_digit((data[i / 2] as int) % 16)
            },
    )
}

/// The value of a hexadecimal digit of either case, or none.
pub open spec fn hex_digit_value(c: char) -> Option<int> {
    if '0' <= c && c <= '9' {
        Some((c as int) - ('0' as int))
    } else if 'a' <= c && c <= 'f' {
        Some((c as int) - ('a' as int) + 10)
    } else if 'A' <= c && c <= 'F' {
        Some((c as int) - ('A' as int) + 10)
    } else {
        None
    }
}

/// Whether a text is an even number of hexadecimal digits.
pub open spec fn is_hex_text(s: Seq<char>) -> bool {
    s.len() % 2 == 0 && forall|i: int| 0 <= i < s.len() ==> hex_digit_value(#[trigger] s[i]) is Some
}

/// The bytes that a hexadecimal text spells.
pub open spec fn hex_bytes(s: Seq<char>) -> Seq<u8> {
    Seq::new(
        s.len() / 2,
        |i: int| (hex_digit_value(s[2 * i])->0 * 16 + hex_digit_value(s[2 * i + 1])->0) as u8,
    )
}

/// Why a hexadecimal text was not taken.
#[derive(Clone, Copy, Debug, PartialEq, Eq)]
pub enum HexError {
    /// A character that is no hexadecimal digit, and its byte offset.
    InvalidHexCharacter { c: char, index: usize },
    /// An odd number of digits.
    OddLength,
    /// The digits spell a byte string of the wrong length.
    InvalidStringLength,
}

/// `sha2::Sha256::digest`: the SHA-256 digest of `data`, a function of the
/// bytes alone.
#[verifier::external_body]
pub(crate) fn sha256(data: &[u8]) -> (out: [u8; 32])
    ensures
        out@ == sha256_digest(data@),
{
    <sha2::Sha256 as sha2::Digest>::digest(data).into()
}

/// `ripemd::Ripemd160::digest`: the RIPEMD-160 digest of `data`, a function
/// of the bytes alone.
#[verifier::external_body]
pub(crate) fn ripemd160(data: &[u8]) -> (out: [u8; 20])
    ensures
        out@ == ripemd160_digest(data@),
{
    <ripemd::Ripemd160 as ripemd::Digest>::digest(data).into()
}

/// `hex::encode`: two lower-case digits per byte, in order, the high four
/// bits of each byte first.
#[verifier::external_body]
pub(crate) fn hex_encode(data: &[u8]) -> (out: String)
    ensures
        out@ == hex_text(data@),
{
    hex::encode(data)
}

/// `hex::decode`: succeeds exactly on an even number of hexadecimal digits
/// of either case and then gives the bytes they spell; an odd byte length
/// is reported as such, and no other failure is a length error.
#[verifier::external_body]
pub(crate) fn hex_decode(text: &str) -> (out: Result<Vec<u8>, HexError>)
    ensures
        out is Ok <==> is_hex_text(text@),
        out matches Ok(bytes) ==> bytes@ == hex_bytes(text@),
        out matches Err(e) ==> e != HexError::InvalidStringLength,
{
    match hex::decode(text) {
        Ok(bytes) => Ok(bytes),
        Err(hex::FromHexError::InvalidHexCharacter { c, index }) => {
            Err(HexError::InvalidHexCharacter { c, index })
        },
        Err(hex::FromHexError::OddLength) => Err(HexError::OddLength),
        Err(hex::FromHexError::InvalidStringLength) => Err(HexError::InvalidStringLength),
    }
}

/// Whether two byte strings are equal.
pub fn bytes_equal(a: &[u8], b: &[u8]) -> (same: bool)
    ensures
        same == (a@ == b@),
{
    if a.len() != b.len() {
        return false;
    }
    let mut i: usize = 0;
    while i < a.len()
        invariant
            a@.len() == b@.len(),
            i <= a@.len(),
            forall|j: int| 0 <= j < i ==> a@[j] == b@[j],
        decreases a@.len() - i,
    {
        if a[i] != b[i] {
            return false;
        }
        i += 1;
    }
    assert(a@ =~= b@);
    true
}

/// The first 32 bytes of a slice, as an array.
pub fn array32_from(bytes: &[u8]) -> (out: [u8; 32])
    requires
        bytes@.len() >= 32,
    ensures
        out@ == bytes@.subrange(0, 32),
{
    let mut out = [0u8; 32];
    let mut i: usize = 0;
    while i < 32
        invariant
            i <= 32,
            bytes@.len() >= 32,
            forall|j: int| 0 <= j < i ==> out@[j] == bytes@[j],
        decreases 32 - i,
    {
        out[i] = bytes[i];
        i += 1;
    }
    assert(out@ =~= bytes@.subrange(0, 32));
    out
}

/// A 32-byte content hash.
#[derive(Clone, Copy, Debug, Eq, Hash)]
pub struct Hash256(pub [u8; 32]);

impl View for Hash256 {
    type V = Seq<u8>;

    open spec fn view(&self) -> Seq<u8> {
        self.0@
    }
}

impl PartialEq for Hash256 {
    fn eq(&self, other: &Self) -> (same: bool) {
        bytes_equal(self.0.as_slice(), other.0.as_slice())
    }
}

impl vstd::std_specs::cmp::PartialEqSpecImpl for Hash256 {
    open spec fn obeys_eq_spec() -> bool {
        true
    }

    open spec fn eq_spec(&self, other: &Self) -> bool {
        self@ == other@
    }
}

/// The all-zero byte string of a given length.
pub open spec fn zero_bytes(n: nat) -> Seq<u8> {
    Seq::new(n, |i: int| 0u8)
}

impl Hash256 {
    pub fn new(bytes: [u8; 32]) -> (h: Self)
        ensures
            h@ == bytes@,
    {
        Hash256(bytes)
    }

    /// The canonical zero value.
    pub fn zero() -> (h: Self)
        ensures
            h@ == zero_bytes(32),
    {
        let h = Hash256([0u8; 32]);
        assert(h@ =~= zero_bytes(32));
        h
    }

    /// SHA-256 of `data`.
    pub fn hash(data: &[u8]) -> (h: Self)
        ensures
            h@ == sha256_digest(data@),
    {
        Hash256(sha256(data))
    }

    /// SHA-256 of the SHA-256 of `data`.
    pub fn double_hash(data: &[u8]) -> (h: Self)
        ensures
            h@ == double_sha256_digest(data@),
    {
        let first = sha256(data);
        Hash256(sha256(first.as_slice()))
    }

    pub fn as_bytes(&self) -> (bytes: &[u8; 32])
        ensures
            bytes@ == self@,
    {
        &self.0
    }

    /// Lower-case hexadecimal text, 64 digits.
    pub fn to_hex(&self) -> (text: String)
        ensures
            text@ == hex_text(self@),
    {
        hex_encode(self.0.as_slice())
    }

    /// Reads 64 hexadecimal digits. Text that is not hexadecimal is
    /// refused with the decoder's error, hexadecimal text of another length
    /// with `InvalidStringLength`.
    pub fn from_hex(hex_str: &str) -> (out: Result<Self, HexError>)
        ensures
            out is Ok <==> is_hex_text(hex_str@) && hex_str@.len() == 64,
            out matches Ok(h) ==> h@ == hex_bytes(hex_str@),
            out matches Err(e) ==> (e == HexError::InvalidStringLength <==> is_hex_text(hex_str@)),
    {
        match hex_decode(hex_str) {
            Err(e) => Err(e),
            Ok(bytes) => {
                if bytes.len() != 32 {
                    Err(HexError::InvalidStringLength)
                } else {
                    let h = Hash256(array32_from(bytes.as_slice()));
                    assert(h@ =~= bytes@);
                    Ok(h)
                }
            },
        }
    }

    /// The hash held in a slice of exactly 32 bytes.
    pub fn from_slice(slice: &[u8]) -> (out: Option<Self>)
        ensures
            out is Some <==> slice@.len() == 32,
            out matches Some(h) ==> h@ == slice@,
    {
        if slice.len() != 32 {
            return None;
        }
        let h = Hash256(array32_from(slice));
        assert(h@ =~= slice@);
        Some(h)
    }
}

impl From<[u8; 32]> for Hash256 {
    fn from(bytes: [u8; 32]) -> (h: Self) {
        Hash256(bytes)
    }
}

impl vstd::std_specs::convert::FromSpecImpl<[u8; 32]> for Hash256 {
    open spec fn obeys_from_spec() -> bool {
        true
    }

    open spec fn from_spec(bytes: [u8; 32]) -> Self {
        Hash256(bytes)
    }
}

/// Anything with a content hash: the SHA-256 digest of a byte string that
/// the value determines.
pub trait Hashable {
    /// The bytes that are hashed.
    spec fn hash_input(&self) -> Seq<u8>;

    fn hash(&self) -> (h: Hash256)
        ensures
            h@ == sha256_digest(self.hash_input()),
    ;
}

impl Hashable for &[u8] {
    open spec fn hash_input(&self) -> Seq<u8> {
        self@
    }

    fn hash(&self) -> (h: Hash256) {
        Hash256::hash(*self)
    }
}

impl Hashable for Vec<u8> {
    open spec fn hash_input(&self) -> Seq<u8> {
        self@
    }

    fn hash(&self) -> (h: Hash256) {
        Hash256::hash(self.as_slice())
    }
}

impl Hashable for String {
    open spec fn hash_input(&self) -> Seq<u8> {
        vstd::utf8::encode_utf8(self@)
    }

    fn hash(&self) -> (h: Hash256) {
        Hash256::hash(self.as_str().as_bytes())
    }
}

/// A 20-byte short hash.
#[derive(Clone, Copy, Debug, Eq, Hash)]
pub struct Hash160(pub [u8; 20]);

impl View for Hash160 {
    type V = Seq<u8>;

    open spec fn view(&self) -> Seq<u8> {
        self.0@
    }
}

impl PartialEq for Hash160 {
    fn eq(&self, other: &Self) -> (same: bool) {
        bytes_equal(self.0.as_slice(), other.0.as_slice())
    }
}

impl vstd::std_specs::cmp::PartialEqSpecImpl for Hash160 {
    open spec fn obeys_eq_spec() -> bool {
        true
    }

    open spec fn eq_spec(&self, other: &Self) -> bool {
        self@ == other@
    }
}

impl Hash160 {
    pub fn new(bytes: [u8; 20]) -> (h: Self)
        ensures
            h@ == bytes@,
    {
        Hash160(bytes)
    }

    /// RIPEMD-160 of `data`.
    pub fn hash(data: &[u8]) -> (h: Self)
        ensures
            h@ == ripemd160_digest(data@),
    {
        Hash160(ripemd160(data))
    }

    /// RIPEMD-160 of the SHA-256 of `data`.
    pub fn hash_sha256(data: &[u8]) -> (h: Self)
        ensures
            h@ == hash160_digest(data@),
    {
        let first = sha256(data);
        Hash160(ripemd160(first.as_slice()))
    }

    pub fn as_bytes(&self) -> (bytes: &[u8; 20])
        ensures
            bytes@ == self@,
    {
        &self.0
    }

    /// Lower-case hexadecimal text, 40 digits.
    pub fn to_hex(&self) -> (text: String)
        ensures
            text@ == hex_text(self@),
    {
        hex_encode(self.0.as_slice())
    }
}

} // verus!
