//! The text form of a group of signers: `multi(`, the threshold, and the
//! keys in hexadecimal, all separated by commas, and `)`.

use crate::chain::block::unix_time_now;
use crate::consensus::validation::{first_where, lemma_first_where_is, lemma_first_where_none};
use crate::crypto::hash::{hex_decode, hex_encode, hex_bytes, hex_text, is_hex_text, sha256_digest};
use crate::crypto::keys::{
    address_payload, base58_text, is_curve_point, PublicKey, ALTERNATE_VERSION,
};
use crate::error::{CryptoReason, MultisigReason, QtcError};
use crate::wallet::multisig::{group_defect, keys_view, multisig_script, MultisigWallet};
use crate::wallet::wallet::{append_decimal, decimal_text};
use vstd::prelude::*;
use vstd::string::{StrSliceExecFns, StringExecFns};

verus! {

/// The texts joined by commas.
pub open spec fn joined(parts: Seq<Seq<char>>) -> Seq<char>
    decreases parts.len(),
{
    if parts.len() == 0 {
        Seq::empty()
    } else if parts.len() == 1 {
        parts[0]
    } else {
        joined(parts.drop_last()) + seq![','] + parts.last()
    }
}

/// The keys in hexadecimal.
pub open spec fn key_texts(keys: Seq<Seq<u8>>) -> Seq<Seq<char>> {
    keys.map_values(|key: Seq<u8>| hex_text(key))
}

/// The text form of a group: its threshold and its keys.
pub open spec fn descriptor_text(required: u32, keys: Seq<Seq<u8>>) -> Seq<char> {
    "multi("@ + decimal_text(required as nat) + seq![','] + joined(key_texts(keys)) + seq![')']
}

/// The parts of a text between its commas; a text without comma is one
/// part.
pub open spec fn split_commas(text: Seq<char>) -> Seq<Seq<char>>
    decreases text.len(),
{
    if text.len() == 0 {
        seq![Seq::<char>::empty()]
    } else {
        let before = split_commas(text.drop_last());
        if text.last() == ',' {
            before.push(Seq::<char>::empty())
        } else {
            before.drop_last().push(before.last().push(text.last()))
        }
    }
}

/// The value of a decimal digit, if the character is one.
pub open spec fn digit_of(c: char) -> Option<int> {
    if '0' <= c && c <= '9' {
        Some((c as int) - ('0' as int))
    } else {
        None
    }
}

/// The number that decimal digits spell, if all of them are digits.
pub open spec fn digits_value(digits: Seq<char>) -> Option<int>
    decreases digits.len(),
{
    if digits.len() == 0 {
        Some(0int)
    } else {
        match (digits_value(digits.drop_last()), digit_of(digits.last())) {
            (Some(value), Some(digit)) => Some(10 * value + digit),
            _ => None,
        }
    }
}

/// The digits of a number text: the text without a plus sign in front.
pub open spec fn unsigned_digits(text: Seq<char>) -> Seq<char> {
    if text.len() > 0 && text[0] == '+' {
        text.subrange(1, text.len() as int)
    } else {
        text
    }
}

/// The 32-bit number that a text spells, if it spells one: at least one
/// decimal digit, a plus sign in front or none, nothing else, and a value
/// that fits.
pub open spec fn parsed_u32(text: Seq<char>) -> Option<u32> {
    let digits = unsigned_digits(text);
    if digits.len() == 0 {
        None
    } else {
        match digits_value(digits) {
            Some(value) => if value <= u32::MAX {
                Some(value as u32)
            } else {
                None
            },
            None => None,
        }
    }
}

/// What stands between `multi(` and `)` in a text that is framed so.
pub open spec fn descriptor_inner(text: Seq<char>) -> Option<Seq<char>> {
    if text.len() >= 7 && text.subrange(0, 6) == "multi("@ && text.last() == ')' {
        Some(text.subrange(6, text.len() - 1))
    } else {
        None
    }
}

/// Why the part of a text that should be a key is refused, if it is: it
/// is hexadecimal; it spells 33 or 65 bytes; they are a point of the
/// curve.
pub open spec fn key_part_defect(part: Seq<char>) -> Option<QtcError> {
    if !is_hex_text(part) {
        Some(QtcError::Multisig(MultisigReason::InvalidKeyHex))
    } else if hex_bytes(part).len() != 33 && hex_bytes(part).len() != 65 {
        Some(QtcError::Crypto(CryptoReason::PublicKeyLength))
    } else if !is_curve_point(hex_bytes(part)) {
        Some(QtcError::Crypto(CryptoReason::InvalidPublicKey))
    } else {
        None
    }
}

/// Whether the part at an index, counted after the threshold, is refused
/// as a key.
pub open spec fn key_part_fails(parts: Seq<Seq<char>>) -> spec_fn(int) -> bool {
    |i: int| key_part_defect(parts[i + 1]) is Some
}

/// The keys that the parts after the threshold spell.
pub open spec fn keys_of_parts(parts: Seq<Seq<char>>) -> Seq<Seq<u8>> {
    Seq::new((parts.len() - 1) as nat, |i: int| hex_bytes(parts[i + 1]))
}

/// The threshold and the keys that a text names, or the first reason for
/// which it names none: it is framed by `multi(` and `)`; it has a
/// threshold and at least one more part; the threshold is a number; every
/// other part is a key.
pub open spec fn descriptor_group(text: Seq<char>) -> Result<(u32, Seq<Seq<u8>>), QtcError> {
    match descriptor_inner(text) {
        None => Err(QtcError::Multisig(MultisigReason::InvalidDescriptor)),
        Some(inner) => {
            let parts = split_commas(inner);
            if parts.len() < 2 {
                Err(QtcError::Multisig(MultisigReason::InvalidDescriptorFormat))
            } else {
                match parsed_u32(parts[0]) {
                    None => Err(QtcError::Multisig(MultisigReason::InvalidRequiredCount)),
                    Some(required) => match first_where(parts.len() - 1, key_part_fails(parts)) {
                        Some(i) => Err(key_part_defect(parts[i + 1])->0),
                        None => Ok((required, keys_of_parts(parts))),
                    },
                }
            }
        },
    }
}

/// The texts of a sequence of string slices.
pub open spec fn slices_view(parts: Seq<&str>) -> Seq<Seq<char>> {
    parts.map_values(|part: &str| part@)
}

/// Splits a text at its commas.
pub fn split_at_commas(text: &str) -> (parts: Vec<&str>)
    ensures
        slices_view(parts@) == split_commas(text@),
        parts@.len() >= 1,
{
    let n = text.unicode_len();
    let mut parts: Vec<&str> = Vec::new();
    let mut start: usize = 0;
    let mut i: usize = 0;
    proof {
        assert(text@.take(0) =~= Seq::<char>::empty());
        assert(slices_view(parts@).push(text@.subrange(0, 0)) =~= seq![Seq::<char>::empty()]);
    }
    while i < n
        invariant
            start <= i <= n,
            n == text@.len(),
            split_commas(text@.take(i as int)) == slices_view(parts@).push(
                text@.subrange(start as int, i as int),
            ),
        decreases n - i,
    {
        let ghost before = split_commas(text@.take(i as int));
        let ghost done = slices_view(parts@);
        proof {
            assert(text@.take(i as int + 1).drop_last() =~= text@.take(i as int));
            assert(text@.take(i as int + 1).last() == text@[i as int]);
            assert(before.drop_last() =~= done);
            assert(before.last() == text@.subrange(start as int, i as int));
        }
        if text.get_char(i) == ',' {
            parts.push(text.substring_char(start, i));
            start = i + 1;
            proof {
                assert(slices_view(parts@) =~= before);
                assert(text@.subrange(start as int, i as int + 1) =~= Seq::<char>::empty());
            }
        } else {
            proof {
                assert(text@.subrange(start as int, i as int).push(text@[i as int])
                    =~= text@.subrange(start as int, i as int + 1));
            }
        }
        i += 1;
    }
    let ghost done = slices_view(parts@);
    parts.push(text.substring_char(start, n));
    proof {
        assert(text@.take(n as int) =~= text@);
        assert(slices_view(parts@) =~= done.push(text@.subrange(start as int, n as int)));
    }
    parts
}

/// The value of digits is not negative.
pub proof fn lemma_digits_value_not_negative(digits: Seq<char>)
    ensures
        digits_value(digits) matches Some(value) ==> value >= 0,
    decreases digits.len(),
{
    if digits.len() > 0 {
        lemma_digits_value_not_negative(digits.drop_last());
    }
}

/// Where the digits up to a place spell no number, or one that is too
/// large, the digits up to a later place do so too.
pub proof fn lemma_digits_value_grows(digits: Seq<char>, i: int, j: int)
    requires
        0 <= i <= j <= digits.len(),
    ensures
        digits_value(digits.take(i)) is None ==> digits_value(digits.take(j)) is None,
        digits_value(digits.take(j)) matches Some(later) ==> digits_value(digits.take(i))->0
            <= later,
    decreases j - i,
{
    if i < j {
        lemma_digits_value_grows(digits, i, j - 1);
        assert(digits.take(j).drop_last() =~= digits.take(j - 1));
        lemma_digits_value_not_negative(digits.take(j - 1));
    }
}

/// Reads a 32-bit number in decimal digits, with a plus sign in front or
/// none.
pub fn parse_u32(text: &str) -> (out: Option<u32>)
    ensures
        out == parsed_u32(text@),
{
    let n = text.unicode_len();
    let first: usize = if n > 0 && text.get_char(0) == '+' {
        1
    } else {
        0
    };
    if first == n {
        return None;
    }
    let ghost digits = unsigned_digits(text@);
    assert(digits =~= text@.subrange(first as int, n as int));
    let mut value: u64 = 0;
    let mut i: usize = first;
    assert(digits.take(0) =~= Seq::<char>::empty());
    while i < n
        invariant
            first <= i <= n,
            n == text@.len(),
            digits == text@.subrange(first as int, n as int),
            digits == unsigned_digits(text@),
            digits.len() > 0,
            digits_value(digits.take(i - first)) == Some(value as int),
            value <= u32::MAX,
        decreases n - i,
    {
        let c = text.get_char(i);
        proof {
            assert(digits.take(i - first + 1).drop_last() =~= digits.take(i - first));
            assert(digits.take(i - first + 1).last() == c);
            lemma_digits_value_grows(digits, i - first + 1, digits.len() as int);
            assert(digits.take(digits.len() as int) =~= digits);
        }
        if !('0' <= c && c <= '9') {
            return None;
        }
        let digit: u64 = (c as u32 - '0' as u32) as u64;
        value = 10 * value + digit;
        if value > 0xFFFF_FFFF {
            return None;
        }
        i += 1;
    }
    assert(digits.take(n - first) =~= digits);
    Some(value as u32)
}

impl MultisigWallet {
    /// The text form of the group: `multi(`, the threshold, and the keys
    /// in hexadecimal, all separated by commas, and `)`.
    pub fn export_descriptor(&self) -> (text: String)
        ensures
            text@ == descriptor_text(
                self.script.required_signatures,
                keys_view(self.script.public_keys@),
            ),
    {
        let ghost keys = keys_view(self.script.public_keys@);
        let mut text = String::from_str("multi(");
        append_decimal(&mut text, self.script.required_signatures);
        proof {
            reveal_strlit(",");
            reveal_strlit(")");
        }
        text.append(",");
        let ghost head = text@;
        let mut i: usize = 0;
        assert(key_texts(keys.take(0)) =~= Seq::<Seq<char>>::empty());
        assert(text@ =~= head + joined(key_texts(keys.take(0))));
        while i < self.script.public_keys.len()
            invariant
                i <= self.script.public_keys@.len(),
                keys == keys_view(self.script.public_keys@),
                head == "multi("@ + decimal_text(self.script.required_signatures as nat) + seq![','],
                text@ == head + joined(key_texts(keys.take(i as int))),
                ","@ == seq![','],
            decreases self.script.public_keys@.len() - i,
        {
            let ghost so_far = key_texts(keys.take(i as int));
            let ghost next = key_texts(keys.take(i as int + 1));
            proof {
                assert(next.drop_last() =~= so_far);
                assert(next.last() == hex_text(keys[i as int]));
            }
            if i > 0 {
                text.append(",");
            }
            let key = hex_encode(self.script.public_keys[i].to_bytes());
            text.append(key.as_str());
            proof {
                if i == 0 {
                    assert(so_far =~= Seq::<Seq<char>>::empty());
                    assert(text@ =~= head + joined(next));
                } else {
                    assert(text@ =~= head + joined(next));
                }
            }
            i += 1;
        }
        assert(keys.take(i as int) =~= keys);
        text.append(")");
        text
    }

    /// The wallet of the group that a text form names, made now, with
    /// the given name and the indices of the keys that are ours.
    pub fn from_descriptor(name: String, descriptor: &str, our_indices: Vec<usize>) -> (out: Result<
        Self,
        QtcError,
    >)
        ensures
            match descriptor_group(descriptor@) {
                Err(e) => out == Err::<Self, QtcError>(e),
                Ok((required, keys)) => {
                    &&& out is Ok <==> group_defect(required, keys.len()) is None && forall|j: int|
                        0 <= j < our_indices@.len() ==> our_indices@[j] < keys.len()
                    &&& out matches Ok(wallet) ==> {
                        &&& wallet.name == name
                        &&& wallet.our_key_indices == our_indices
                        &&& wallet.script.required_signatures == required
                        &&& wallet.script.total_keys == keys.len()
                        &&& keys_view(wallet.script.public_keys@) == keys
                        &&& wallet.script.script@ == multisig_script(required, keys)
                        &&& wallet.address@ == "qtc"@ + base58_text(
                            address_payload(
                                ALTERNATE_VERSION,
                                sha256_digest(wallet.script.script@).subrange(0, 20),
                            ),
                        )
                    }
                    &&& out matches Err(e) ==> e == (match group_defect(required, keys.len()) {
                        Some(reason) => QtcError::Multisig(reason),
                        None => QtcError::Multisig(MultisigReason::InvalidKeyIndex),
                    })
                },
            },
    {
        let n = descriptor.unicode_len();
        if n < 7 {
            return Err(QtcError::Multisig(MultisigReason::InvalidDescriptor));
        }
        let head = descriptor.substring_char(0, 6);
        proof {
            reveal_strlit("multi(");
        }
        if !(String::from_str(head) == String::from_str("multi(")) || descriptor.get_char(n - 1)
            != ')' {
            return Err(QtcError::Multisig(MultisigReason::InvalidDescriptor));
        }
        let inner = descriptor.substring_char(6, n - 1);
        assert(descriptor_inner(descriptor@) == Some(inner@));
        let parts = split_at_commas(inner);
        let ghost texts = slices_view(parts@);
        if parts.len() < 2 {
            return Err(QtcError::Multisig(MultisigReason::InvalidDescriptorFormat));
        }
        assert(texts[0] == parts@[0]@);
        let required = match parse_u32(parts[0]) {
            None => {
                return Err(QtcError::Multisig(MultisigReason::InvalidRequiredCount));
            },
            Some(required) => required,
        };
        let ghost fails = key_part_fails(texts);
        let mut public_keys: Vec<PublicKey> = Vec::new();
        let mut i: usize = 1;
        while i < parts.len()
            invariant
                1 <= i <= parts@.len(),
                texts == slices_view(parts@),
                fails == key_part_fails(texts),
                descriptor_inner(descriptor@) == Some(inner@),
                texts == split_commas(inner@),
                texts.len() >= 2,
                parsed_u32(texts[0]) == Some(required),
                public_keys@.len() == i - 1,
                forall|k: int| 0 <= k < i - 1 ==> !#[trigger] fails(k),
                forall|k: int|
                    0 <= k < i - 1 ==> (#[trigger] public_keys@[k])@ == hex_bytes(texts[k + 1]),
            decreases parts@.len() - i,
        {
            assert(texts[i as int] == parts@[i as int]@);
            let bytes = match hex_decode(parts[i]) {
                Err(_) => {
                    proof {
                        assert(fails(i - 1));
                        lemma_first_where_is(texts.len() - 1, fails, i - 1);
                    }
                    return Err(QtcError::Multisig(MultisigReason::InvalidKeyHex));
                },
                Ok(bytes) => bytes,
            };
            let key = match PublicKey::from_bytes(bytes.as_slice()) {
                Err(e) => {
                    proof {
                        assert(fails(i - 1));
                        lemma_first_where_is(texts.len() - 1, fails, i - 1);
                    }
                    return Err(e);
                },
                Ok(key) => key,
            };
            assert(!fails(i - 1));
            public_keys.push(key);
            i += 1;
        }
        proof {
            lemma_first_where_none(texts.len() - 1, fails);
            assert(keys_view(public_keys@) =~= keys_of_parts(texts));
        }
        Self::with_timestamp(name, required, public_keys, our_indices, unix_time_now())
    }
}

} // verus!
