//! Post-quantum addresses as opaque tags beside the ordinary ones.

use crate::crypto::keys::{address_defect, decode_address, pqc_tag, ALTERNATE_VERSION};
use vstd::prelude::*;
use vstd::utf8::encode_utf8;

verus! {

/// A post-quantum address with the public keys it was derived from.
#[derive(Clone, Debug)]
pub struct PqcAddress {
    pub signing_public_key: Vec<u8>,
    pub encryption_public_key: Vec<u8>,
    pub address: String,
}

/// A post-quantum signature with the public key it verifies under.
#[derive(Clone, Debug)]
pub struct PqcSignature {
    pub signature: Vec<u8>,
    pub public_key: Vec<u8>,
}

/// An address of either kind.
#[derive(Clone, Debug)]
pub enum HybridAddress {
    Traditional(String),
    PostQuantum(PqcAddress),
}

impl HybridAddress {
    /// The address text.
    pub fn address_string(&self) -> (text: String)
        ensures
            text@ == (match *self {
                HybridAddress::Traditional(address) => address@,
                HybridAddress::PostQuantum(pqc) => pqc.address@,
            }),
    {
        match self {
            HybridAddress::Traditional(address) => address.clone(),
            HybridAddress::PostQuantum(pqc) => pqc.address.clone(),
        }
    }

    /// Whether the address is a post-quantum one.
    pub fn is_pqc(&self) -> (pqc: bool)
        ensures
            pqc == (*self is PostQuantum),
    {
        match self {
            HybridAddress::Traditional(_) => false,
            HybridAddress::PostQuantum(_) => true,
        }
    }
}

/// Whether an address text is a valid post-quantum address: it starts
/// with `qtc-pqc`, the rest is base 58 of 25 bytes with the version byte
/// 5, and the checksum verifies.
pub fn is_valid_pqc_address(address: &str) -> (valid: bool)
    ensures
        valid == address_defect(encode_utf8(address@), pqc_tag(), ALTERNATE_VERSION) is None,
{
    let tag: [u8; 7] = [0x71, 0x74, 0x63, 0x2d, 0x70, 0x71, 0x63];
    assert(tag@ =~= pqc_tag());
    decode_address(address.as_bytes(), tag.as_slice(), ALTERNATE_VERSION).is_ok()
}

} // verus!
