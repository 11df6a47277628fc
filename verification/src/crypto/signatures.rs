//! ECDSA signatures in their compact form, and their verification.

use crate::crypto::hash::array32_from;
use crate::crypto::keys::{is_curve_point, PublicKey};
use crate::error::{CryptoReason, QtcError};
use vstd::prelude::*;

verus! {

/// The largest recovery id.
pub const MAX_RECOVERY_ID: u8 = 3;

/// Whether 64 bytes are the compact form of a signature: what
/// `Signature::from_compact` accepts.
pub uninterp spec fn is_compact_signature(compact: Seq<u8>) -> bool;

/// Whether the signature `compact` over `digest` verifies under the public
/// key `key`: what `Secp256k1::verify_ecdsa` accepts.
pub uninterp spec fn ecdsa_accepts(key: Seq<u8>, digest: Seq<u8>, compact: Seq<u8>) -> bool;

/// The compact form of the signature of a private key over a digest:
/// what `Secp256k1::sign_ecdsa` gives.
pub uninterp spec fn ecdsa_signature(secret: Seq<u8>, digest: Seq<u8>) -> Seq<u8>;

/// The DER form of a compact signature: what `Signature::serialize_der`
/// gives.
pub uninterp spec fn der_encoding(compact: Seq<u8>) -> Seq<u8>;

/// The compact form of the signature that DER bytes spell, if they spell
/// one: what `Signature::from_der` reads.
pub uninterp spec fn der_decoding(der: Seq<u8>) -> Option<Seq<u8>>;

/// Whether 64 bytes with a recovery id are a signature from which a key
/// can be recovered: what `RecoverableSignature::from_compact` accepts.
pub uninterp spec fn is_recoverable_signature(compact: Seq<u8>, recovery_id: u8) -> bool;

/// The serialized public key that a signature with its recovery id
/// recovers for a digest, if it recovers one: what
/// `Secp256k1::recover_ecdsa` gives, compressed.
pub uninterp spec fn ecdsa_recovered(digest: Seq<u8>, compact: Seq<u8>, recovery_id: u8) -> Option<
    Seq<u8>,
>;

/// `secp256k1::ecdsa::Signature::from_compact`: whether the 64 bytes are
/// taken as a signature, a function of the bytes alone.
#[verifier::external_body]
pub(crate) fn compact_signature_ok(compact: &[u8; 64]) -> (ok: bool)
    ensures
        ok == is_compact_signature(compact@),
{
    match secp256k1::ecdsa::Signature::from_compact(compact) {
        Ok(_) => true,
        Err(_) => false,
    }
}

/// `secp256k1::Secp256k1::verify_ecdsa`: whether the signature over the
/// digest verifies under the key, a function of the three alone. The key
/// and the signature must be ones that the curve takes.
#[verifier::external_body]
pub(crate) fn ecdsa_verify(key: &[u8], digest: &[u8; 32], compact: &[u8; 64]) -> (accepted: bool)
    requires
        is_curve_point(key@),
        is_compact_signature(compact@),
    ensures
        accepted == ecdsa_accepts(key@, digest@, compact@),
{
    let key = secp256k1::PublicKey::from_slice(key).unwrap();
    let signature = secp256k1::ecdsa::Signature::from_compact(compact).unwrap();
    let message = secp256k1::Message::from_digest(*digest);
    secp256k1::Secp256k1::verification_only().verify_ecdsa(&message, &signature, &key).is_ok()
}

/// `secp256k1::Secp256k1::sign_ecdsa`: the signature of the private key
/// over the digest in compact form, a function of the two alone: the
/// nonce is derived from them. The key must be one that the curve takes.
#[verifier::external_body]
pub(crate) fn ecdsa_sign(secret: &[u8; 32], digest: &[u8; 32]) -> (compact: [u8; 64])
    requires
        crate::crypto::keys::is_secret_key(secret@),
    ensures
        compact@ == ecdsa_signature(secret@, digest@),
{
    let key = secp256k1::SecretKey::from_slice(secret).unwrap();
    let message = secp256k1::Message::from_digest(*digest);
    secp256k1::Secp256k1::signing_only().sign_ecdsa(&message, &key).serialize_compact()
}

/// `secp256k1::ecdsa::RecoverableSignature::from_compact`: whether the 64
/// bytes with the recovery id are taken as a recoverable signature, a
/// function of the two alone. The recovery id must be one of 0 to 3.
#[verifier::external_body]
pub(crate) fn recoverable_signature_ok(compact: &[u8; 64], recovery_id: u8) -> (ok: bool)
    requires
        recovery_id <= MAX_RECOVERY_ID,
    ensures
        ok == is_recoverable_signature(compact@, recovery_id),
{
    let id = secp256k1::ecdsa::RecoveryId::from_i32(i32::from(recovery_id)).unwrap();
    match secp256k1::ecdsa::RecoverableSignature::from_compact(compact, id) {
        Ok(_) => true,
        Err(_) => false,
    }
}

/// `secp256k1::Secp256k1::recover_ecdsa`: the public key, compressed, for
/// which the signature with its recovery id is one over the digest, or
/// nothing where there is none; a function of the three alone. The
/// recovery id must be one of 0 to 3 and the signature one that is taken
/// with it.
#[verifier::external_body]
pub(crate) fn ecdsa_recover(digest: &[u8; 32], compact: &[u8; 64], recovery_id: u8) -> (key: Option<
    Vec<u8>,
>)
    requires
        recovery_id <= MAX_RECOVERY_ID,
        is_recoverable_signature(compact@, recovery_id),
    ensures
        key is Some <==> ecdsa_recovered(digest@, compact@, recovery_id) is Some,
        key matches Some(k) ==> Some(k@) == ecdsa_recovered(digest@, compact@, recovery_id),
{
    let id = secp256k1::ecdsa::RecoveryId::from_i32(i32::from(recovery_id)).unwrap();
    let signature = secp256k1::ecdsa::RecoverableSignature::from_compact(compact, id).unwrap();
    let message = secp256k1::Message::from_digest(*digest);
    match secp256k1::Secp256k1::verification_only().recover_ecdsa(&message, &signature) {
        Ok(key) => Some(key.serialize().to_vec()),
        Err(_) => None,
    }
}

/// `secp256k1::ecdsa::Signature::serialize_der`: the DER form of a
/// signature that the curve takes, a function of its compact form alone.
#[verifier::external_body]
pub(crate) fn compact_to_der(compact: &[u8; 64]) -> (der: Vec<u8>)
    requires
        is_compact_signature(compact@),
    ensures
        der@ == der_encoding(compact@),
{
    secp256k1::ecdsa::Signature::from_compact(compact).unwrap().serialize_der().to_vec()
}

/// `secp256k1::ecdsa::Signature::from_der`: the compact form of the
/// signature that the bytes spell in DER, or nothing, a function of the
/// bytes alone.
#[verifier::external_body]
pub(crate) fn der_to_compact(der: &[u8]) -> (compact: Option<[u8; 64]>)
    ensures
        compact is Some <==> der_decoding(der@) is Some,
        compact matches Some(c) ==> Some(c@) == der_decoding(der@),
{
    match secp256k1::ecdsa::Signature::from_der(der) {
        Ok(signature) => Some(signature.serialize_compact()),
        Err(_) => None,
    }
}

/// The model of a [`Signature`].
pub struct SignatureView {
    pub r: Seq<u8>,
    pub s: Seq<u8>,
    pub recovery_id: u8,
}

impl SignatureView {
    /// The 64 bytes of `r` and `s`.
    pub open spec fn compact(self) -> Seq<u8> {
        self.r + self.s
    }
}

/// An ECDSA signature: the two 32-byte halves and a recovery id.
#[derive(Clone, Copy, Debug, Eq)]
pub struct Signature {
    r: [u8; 32],
    s: [u8; 32],
    recovery_id: u8,
}

impl View for Signature {
    type V = SignatureView;

    closed spec fn view(&self) -> SignatureView {
        SignatureView { r: self.r@, s: self.s@, recovery_id: self.recovery_id }
    }
}

impl PartialEq for Signature {
    fn eq(&self, other: &Self) -> (same: bool) {
        crate::crypto::hash::bytes_equal(self.r.as_slice(), other.r.as_slice())
            && crate::crypto::hash::bytes_equal(self.s.as_slice(), other.s.as_slice())
            && self.recovery_id == other.recovery_id
    }
}

impl vstd::std_specs::cmp::PartialEqSpecImpl for Signature {
    open spec fn obeys_eq_spec() -> bool {
        true
    }

    open spec fn eq_spec(&self, other: &Self) -> bool {
        self@ == other@
    }
}

impl Signature {
    /// The signature in 64 bytes, `r` then `s`, or in 65 with the recovery
    /// id after them. Of 64 bytes the recovery id is 0.
    pub fn from_bytes(bytes: &[u8]) -> (out: Result<Self, QtcError>)
        ensures
            out is Ok <==> bytes@.len() == 64 || bytes@.len() == 65,
            out matches Ok(signature) ==> signature@ == (SignatureView {
                r: bytes@.subrange(0, 32),
                s: bytes@.subrange(32, 64),
                recovery_id: if bytes@.len() == 65 {
                    bytes@[64]
                } else {
                    0
                },
            }),
            out matches Err(e) ==> e == QtcError::Crypto(CryptoReason::SignatureLength),
    {
        if bytes.len() != 64 && bytes.len() != 65 {
            return Err(QtcError::Crypto(CryptoReason::SignatureLength));
        }
        let r = array32_from(bytes);
        let second = vstd::slice::slice_subrange(bytes, 32, 64);
        let s = array32_from(second);
        assert(s@ =~= bytes@.subrange(32, 64));
        let recovery_id = if bytes.len() == 65 {
            bytes[64]
        } else {
            0
        };
        Ok(Signature { r, s, recovery_id })
    }

    /// The halves of a signature are the halves of its compact form.
    pub proof fn lemma_halves(self)
        ensures
            self@.r == self@.compact().subrange(0, 32),
            self@.s == self@.compact().subrange(32, 64),
            self@.compact().len() == 64,
    {
        assert(self@.r =~= self@.compact().subrange(0, 32));
        assert(self@.s =~= self@.compact().subrange(32, 64));
    }

    /// The 65 bytes: `r`, `s`, the recovery id.
    pub fn to_bytes(&self) -> (bytes: Vec<u8>)
        ensures
            bytes@ == self@.compact().push(self@.recovery_id),
            bytes@.len() == 65,
    {
        let mut bytes: Vec<u8> = Vec::new();
        crate::chain::codec::put_bytes(&mut bytes, self.r.as_slice());
        crate::chain::codec::put_bytes(&mut bytes, self.s.as_slice());
        bytes.push(self.recovery_id);
        assert(bytes@ =~= self@.compact().push(self@.recovery_id));
        bytes
    }

    /// The 64 bytes: `r`, `s`.
    pub fn to_compact(&self) -> (bytes: Vec<u8>)
        ensures
            bytes@ == self@.compact(),
            bytes@.len() == 64,
    {
        let mut bytes: Vec<u8> = Vec::new();
        crate::chain::codec::put_bytes(&mut bytes, self.r.as_slice());
        crate::chain::codec::put_bytes(&mut bytes, self.s.as_slice());
        assert(bytes@ =~= self@.compact());
        bytes
    }

    /// The 64 bytes as an array.
    pub fn compact_array(&self) -> (bytes: [u8; 64])
        ensures
            bytes@ == self@.compact(),
    {
        let mut bytes = [0u8; 64];
        let mut i: usize = 0;
        while i < 32
            invariant
                i <= 32,
                forall|j: int| 0 <= j < i ==> bytes@[j] == self.r@[j],
                forall|j: int| 0 <= j < i ==> bytes@[32 + j] == self.s@[j],
            decreases 32 - i,
        {
            bytes[i] = self.r[i];
            bytes[32 + i] = self.s[i];
            i += 1;
        }
        assert(bytes@ =~= self@.compact());
        bytes
    }

    pub fn recovery_id(&self) -> (id: u8)
        ensures
            id == self@.recovery_id,
    {
        self.recovery_id
    }

    pub fn set_recovery_id(&mut self, recovery_id: u8)
        ensures
            final(self)@ == (SignatureView { recovery_id, ..old(self)@ }),
    {
        self.recovery_id = recovery_id;
    }

    /// The DER form, for a signature that the curve takes.
    pub fn to_der(&self) -> (out: Result<Vec<u8>, QtcError>)
        ensures
            out is Ok <==> is_compact_signature(self@.compact()),
            out matches Ok(der) ==> der@ == der_encoding(self@.compact()),
            out matches Err(e) ==> e == QtcError::Crypto(CryptoReason::InvalidSignature),
    {
        let compact = self.compact_array();
        if !compact_signature_ok(&compact) {
            return Err(QtcError::Crypto(CryptoReason::InvalidSignature));
        }
        Ok(compact_to_der(&compact))
    }

    /// The signature that DER bytes spell, with recovery id 0.
    pub fn from_der(der: &[u8]) -> (out: Result<Self, QtcError>)
        ensures
            out is Ok <==> der_decoding(der@) is Some && der_decoding(der@)->0.len() == 64,
            out matches Ok(signature) ==> signature@.compact() == der_decoding(der@)->0
                && signature@.recovery_id == 0,
            out matches Err(e) ==> e == QtcError::Crypto(CryptoReason::InvalidSignature),
    {
        match der_to_compact(der) {
            None => Err(QtcError::Crypto(CryptoReason::InvalidSignature)),
            Some(compact) => {
                let r = array32_from(compact.as_slice());
                let second = vstd::slice::slice_subrange(compact.as_slice(), 32, 64);
                let s = array32_from(second);
                let signature = Signature { r, s, recovery_id: 0 };
                assert(signature@.compact() =~= compact@);
                Ok(signature)
            },
        }
    }
}

/// Verification of signatures.
pub struct SignatureUtils;

impl SignatureUtils {
    /// Whether `signature` over the 32-byte hash verifies under
    /// `public_key`. A signature that the curve does not take is refused.
    pub fn verify(public_key: &PublicKey, message_hash: &[u8; 32], signature: &Signature) -> (out:
        Result<bool, QtcError>)
        ensures
            out is Ok <==> is_compact_signature(signature@.compact()),
            out matches Ok(valid) ==> valid == ecdsa_accepts(
                public_key@,
                message_hash@,
                signature@.compact(),
            ),
            out matches Err(e) ==> e == QtcError::Crypto(CryptoReason::InvalidSignature),
    {
        let compact = signature.compact_array();
        if !compact_signature_ok(&compact) {
            return Err(QtcError::Crypto(CryptoReason::InvalidSignature));
        }
        Ok(ecdsa_verify(public_key.to_bytes(), message_hash, &compact))
    }

    /// The public key for which `signature`, with its recovery id, is a
    /// signature over the 32-byte hash.
    pub fn recover_public_key(message_hash: &[u8; 32], signature: &Signature) -> (out: Result<
        PublicKey,
        QtcError,
    >)
        ensures
            match recovered_key(message_hash@, signature@) {
                Ok(key) => out matches Ok(found) && found@ == key,
                Err(e) => out == Err::<PublicKey, QtcError>(e),
            },
    {
        let recovery_id = signature.recovery_id();
        if recovery_id > MAX_RECOVERY_ID {
            return Err(QtcError::Crypto(CryptoReason::InvalidRecoveryId));
        }
        let compact = signature.compact_array();
        if !recoverable_signature_ok(&compact, recovery_id) {
            return Err(QtcError::Crypto(CryptoReason::InvalidSignature));
        }
        match ecdsa_recover(message_hash, &compact, recovery_id) {
            None => Err(QtcError::Crypto(CryptoReason::RecoveryFailed)),
            Some(bytes) => PublicKey::from_bytes(bytes.as_slice()),
        }
    }
}

/// The public key that a signature recovers for a digest, or the reason
/// for which it recovers none: the recovery id is one of 0 to 3; the
/// signature is taken with it; a key is recovered; the key has 33 or 65
/// bytes and is a point of the curve.
pub open spec fn recovered_key(digest: Seq<u8>, signature: SignatureView) -> Result<
    Seq<u8>,
    QtcError,
> {
    if signature.recovery_id > MAX_RECOVERY_ID {
        Err(QtcError::Crypto(CryptoReason::InvalidRecoveryId))
    } else if !is_recoverable_signature(signature.compact(), signature.recovery_id) {
        Err(QtcError::Crypto(CryptoReason::InvalidSignature))
    } else {
        match ecdsa_recovered(digest, signature.compact(), signature.recovery_id) {
            None => Err(QtcError::Crypto(CryptoReason::RecoveryFailed)),
            Some(key) => if key.len() != 33 && key.len() != 65 {
                Err(QtcError::Crypto(CryptoReason::PublicKeyLength))
            } else if !is_curve_point(key) {
                Err(QtcError::Crypto(CryptoReason::InvalidPublicKey))
            } else {
                Ok(key)
            },
        }
    }
}

} // verus!
