//! The canonical byte encoding of every hashed or stored structure:
//! fixed-width little-endian integers, raw fixed-width arrays, a `u32`
//! length before each variable field and a `u32` count before each
//! sequence, fields in declaration order.

use vstd::bytes::*;
use vstd::prelude::*;

verus! {

/// A `u32` in four little-endian bytes.
pub open spec fn u32_le(x: u32) -> Seq<u8> {
    spec_u32_to_le_bytes(x)
}

/// A `u64` in eight little-endian bytes.
pub open spec fn u64_le(x: u64) -> Seq<u8> {
    spec_u64_to_le_bytes(x)
}

/// A `u128` in sixteen little-endian bytes.
pub open spec fn u128_le(x: u128) -> Seq<u8> {
    spec_u128_to_le_bytes(x)
}

/// The `u32` that stands before a field or sequence of `n` items: `n`
/// itself wherever it fits, its low 32 bits otherwise.
pub open spec fn len_prefix(n: nat) -> Seq<u8> {
    u32_le((n % 0x1_0000_0000) as u32)
}

/// A variable-length byte field: its length, then its bytes.
pub open spec fn encode_bytes(data: Seq<u8>) -> Seq<u8> {
    len_prefix(data.len()) + data
}

/// A flag in one byte.
pub open spec fn encode_bool(b: bool) -> Seq<u8> {
    seq![if b { 1u8 } else { 0u8 }]
}

/// Appends `data` to `buf`.
pub fn put_bytes(buf: &mut Vec<u8>, data: &[u8])
    ensures
        final(buf)@ == old(buf)@ + data@,
{
    buf.extend_from_slice(data);
    assert(buf@ =~= old(buf)@ + data@);
}

/// Appends a `u32`, little-endian.
pub fn put_u32(buf: &mut Vec<u8>, x: u32)
    ensures
        final(buf)@ == old(buf)@ + u32_le(x),
{
    let bytes = u32_to_le_bytes(x);
    put_bytes(buf, bytes.as_slice());
}

/// Appends a `u64`, little-endian.
pub fn put_u64(buf: &mut Vec<u8>, x: u64)
    ensures
        final(buf)@ == old(buf)@ + u64_le(x),
{
    let bytes = u64_to_le_bytes(x);
    put_bytes(buf, bytes.as_slice());
}

/// Appends a `u128`, little-endian.
pub fn put_u128(buf: &mut Vec<u8>, x: u128)
    ensures
        final(buf)@ == old(buf)@ + u128_le(x),
{
    let bytes = u128_to_le_bytes(x);
    put_bytes(buf, bytes.as_slice());
}

/// Appends the length prefix for `n` items.
pub fn put_len(buf: &mut Vec<u8>, n: usize)
    ensures
        final(buf)@ == old(buf)@ + len_prefix(n as nat),
{
    let low: u64 = (n as u64) % 0x1_0000_0000;
    put_u32(buf, low as u32);
}

/// Appends a variable-length byte field.
pub fn put_var_bytes(buf: &mut Vec<u8>, data: &[u8])
    ensures
        final(buf)@ == old(buf)@ + encode_bytes(data@),
{
    put_len(buf, data.len());
    put_bytes(buf, data);
    assert(buf@ =~= old(buf)@ + encode_bytes(data@));
}

/// Appends a flag.
pub fn put_bool(buf: &mut Vec<u8>, b: bool)
    ensures
        final(buf)@ == old(buf)@ + encode_bool(b),
{
    buf.push(if b { 1u8 } else { 0u8 });
    assert(buf@ =~= old(buf)@ + encode_bool(b));
}

} // verus!
