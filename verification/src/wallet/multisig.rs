//! M-of-N signing: the script that names the keys, and the collection of
//! signatures until enough are at hand.

use crate::chain::block::unix_time_now;
use crate::chain::codec::put_bytes;
use crate::chain::transaction::{
    clone_inputs, clone_outputs, inputs_view, Transaction, TransactionView, TxInput, TxInputView,
};
use crate::crypto::hash::{sha256_digest, Hash256};
use crate::crypto::keys::{
    address_payload, base58_text, encode_address, PublicKey, ALTERNATE_VERSION,
};
use crate::crypto::signatures::{ecdsa_accepts, is_compact_signature, Signature, SignatureView};
use crate::error::{CryptoReason, MultisigReason, QtcError};
use vstd::prelude::*;

verus! {

/// The greatest number of keys of a script.
pub const MAX_MULTISIG_KEYS: usize = 20;

/// The opcode that stands for the number zero; the numbers follow it.
pub const OP_BASE: u8 = 0x50;

/// `OP_CHECKMULTISIG`.
pub const OP_CHECKMULTISIG: u8 = 0xae;

/// The views of a sequence of keys.
pub open spec fn keys_view(keys: Seq<PublicKey>) -> Seq<Seq<u8>> {
    keys.map_values(|k: PublicKey| k@)
}

/// Each key with its length in one byte before it, one after another.
pub open spec fn pushed_keys(keys: Seq<Seq<u8>>) -> Seq<u8>
    decreases keys.len(),
{
    if keys.len() == 0 {
        Seq::empty()
    } else {
        pushed_keys(keys.drop_last()) + seq![(keys.last().len() % 256) as u8] + keys.last()
    }
}

/// The redeem script of a group: the threshold, the keys, their number
/// and `OP_CHECKMULTISIG`.
pub open spec fn multisig_script(required: u32, keys: Seq<Seq<u8>>) -> Seq<u8> {
    seq![(OP_BASE + required) as u8] + pushed_keys(keys) + seq![
        (OP_BASE + keys.len()) as u8,
        OP_CHECKMULTISIG,
    ]
}

/// Why a threshold and a number of keys are refused, if they are: the
/// threshold is zero or above the number of keys, or there are more than
/// twenty keys.
pub open spec fn group_defect(required: u32, total: nat) -> Option<MultisigReason> {
    if required == 0 || required > total {
        Some(MultisigReason::InvalidThreshold)
    } else if total > MAX_MULTISIG_KEYS {
        Some(MultisigReason::TooManyKeys)
    } else {
        None
    }
}

/// The keys of a group, its threshold and its redeem script.
#[derive(Debug)]
pub struct MultisigScript {
    pub required_signatures: u32,
    pub total_keys: u32,
    pub public_keys: Vec<PublicKey>,
    pub script: Vec<u8>,
}

/// A copy of a vector of keys.
pub fn clone_keys(keys: &Vec<PublicKey>) -> (copy: Vec<PublicKey>)
    ensures
        keys_view(copy@) == keys_view(keys@),
{
    let mut copy: Vec<PublicKey> = Vec::new();
    let mut i: usize = 0;
    while i < keys.len()
        invariant
            i <= keys@.len(),
            copy@.len() == i,
            forall|j: int| 0 <= j < i ==> copy@[j]@ == keys@[j]@,
        decreases keys@.len() - i,
    {
        copy.push(keys[i].clone());
        i += 1;
    }
    assert(keys_view(copy@) =~= keys_view(keys@));
    copy
}

impl Clone for MultisigScript {
    fn clone(&self) -> (copy: Self)
        ensures
            copy.required_signatures == self.required_signatures,
            copy.total_keys == self.total_keys,
            keys_view(copy.public_keys@) == keys_view(self.public_keys@),
            copy.script@ == self.script@,
    {
        MultisigScript {
            required_signatures: self.required_signatures,
            total_keys: self.total_keys,
            public_keys: clone_keys(&self.public_keys),
            script: self.script.clone(),
        }
    }
}

impl MultisigScript {
    /// The script of a group with the threshold `required`: the threshold
    /// is at least one and at most the number of keys, of which there are
    /// at most twenty.
    pub fn new(required: u32, public_keys: Vec<PublicKey>) -> (out: Result<Self, QtcError>)
        ensures
            out is Ok <==> group_defect(required, public_keys@.len()) is None,
            out matches Ok(script) ==> {
                &&& script.required_signatures == required
                &&& script.total_keys == public_keys@.len()
                &&& script.public_keys == public_keys
                &&& script.script@ == multisig_script(required, keys_view(public_keys@))
            },
            out matches Err(e) ==> Some(e) == (match group_defect(required, public_keys@.len()) {
                Some(reason) => Some(QtcError::Multisig(reason)),
                None => None,
            }),
    {
        if required == 0 || required as usize > public_keys.len() {
            return Err(QtcError::Multisig(MultisigReason::InvalidThreshold));
        }
        if public_keys.len() > MAX_MULTISIG_KEYS {
            return Err(QtcError::Multisig(MultisigReason::TooManyKeys));
        }
        let script = Self::create_multisig_script(required, &public_keys);
        let total_keys = public_keys.len() as u32;
        Ok(MultisigScript { required_signatures: required, total_keys, public_keys, script })
    }

    /// The redeem script for a threshold and no more than twenty keys.
    pub fn create_multisig_script(required: u32, public_keys: &Vec<PublicKey>) -> (script: Vec<u8>)
        requires
            required <= MAX_MULTISIG_KEYS,
            public_keys@.len() <= MAX_MULTISIG_KEYS,
        ensures
            script@ == multisig_script(required, keys_view(public_keys@)),
    {
        let ghost keys = keys_view(public_keys@);
        let mut script: Vec<u8> = Vec::new();
        script.push(OP_BASE + required as u8);
        let ghost head = script@;
        let mut i: usize = 0;
        while i < public_keys.len()
            invariant
                i <= public_keys@.len(),
                keys == keys_view(public_keys@),
                script@ == head + pushed_keys(keys.take(i as int)),
            decreases public_keys@.len() - i,
        {
            proof {
                assert(keys.take(i as int + 1).drop_last() =~= keys.take(i as int));
                assert(keys.take(i as int + 1).last() == public_keys@[i as int]@);
            }
            let bytes = public_keys[i].to_bytes();
            script.push(bytes.len() as u8);
            put_bytes(&mut script, bytes);
            assert(script@ =~= head + pushed_keys(keys.take(i as int + 1)));
            i += 1;
        }
        assert(keys.take(i as int) =~= keys);
        script.push(OP_BASE + public_keys.len() as u8);
        script.push(OP_CHECKMULTISIG);
        assert(script@ =~= multisig_script(required, keys));
        script
    }

    /// The address of the group: `qtc` and the base-58 text of the version
    /// byte 5, the first 20 bytes of the SHA-256 digest of the script, and
    /// the checksum.
    pub fn to_address(&self) -> (address: String)
        ensures
            address@ == "qtc"@ + base58_text(
                address_payload(ALTERNATE_VERSION, sha256_digest(self.script@).subrange(0, 20)),
            ),
    {
        let script_hash = Hash256::hash(self.script.as_slice());
        let head = vstd::slice::slice_subrange(script_hash.as_bytes().as_slice(), 0, 20);
        encode_address("qtc", ALTERNATE_VERSION, head)
    }

    pub fn get_redeem_script(&self) -> (script: &[u8])
        ensures
            script@ == self.script@,
    {
        self.script.as_slice()
    }

    /// Whether there are as many signatures as the threshold asks for.
    pub fn verify_signature_count(&self, signatures: &[Signature]) -> (enough: bool)
        ensures
            enough == (signatures@.len() >= self.required_signatures),
    {
        signatures.len() as u128 >= self.required_signatures as u128
    }
}

/// A group as a wallet: its script, its address and the keys that are
/// ours.
#[derive(Debug)]
pub struct MultisigWallet {
    pub name: String,
    pub script: MultisigScript,
    pub our_key_indices: Vec<usize>,
    pub address: String,
    pub created_at: u64,
}

impl MultisigWallet {
    /// A wallet for a group, stamped with the clock's time.
    pub fn new(name: String, required: u32, public_keys: Vec<PublicKey>, our_keys: Vec<usize>) -> (out:
        Result<Self, QtcError>)
        ensures
            out is Ok <==> group_defect(required, public_keys@.len()) is None && forall|j: int|
                0 <= j < our_keys@.len() ==> our_keys@[j] < public_keys@.len(),
            out matches Ok(wallet) ==> {
                &&& wallet.name == name
                &&& wallet.our_key_indices == our_keys
                &&& wallet.script.required_signatures == required
                &&& wallet.script.total_keys == public_keys@.len()
                &&& wallet.script.public_keys == public_keys
                &&& wallet.script.script@ == multisig_script(required, keys_view(public_keys@))
                &&& wallet.address@ == "qtc"@ + base58_text(
                    address_payload(
                        ALTERNATE_VERSION,
                        sha256_digest(wallet.script.script@).subrange(0, 20),
                    ),
                )
            },
            out matches Err(e) ==> e == (match group_defect(required, public_keys@.len()) {
                Some(reason) => QtcError::Multisig(reason),
                None => QtcError::Multisig(MultisigReason::InvalidKeyIndex),
            }),
    {
        let created_at = unix_time_now();
        Self::with_timestamp(name, required, public_keys, our_keys, created_at)
    }

    /// A wallet for a group with the given time of creation: the group
    /// must be well formed and every index of ours must name one of its
    /// keys.
    pub fn with_timestamp(
        name: String,
        required: u32,
        public_keys: Vec<PublicKey>,
        our_keys: Vec<usize>,
        created_at: u64,
    ) -> (out: Result<Self, QtcError>)
        ensures
            out is Ok <==> group_defect(required, public_keys@.len()) is None && forall|j: int|
                0 <= j < our_keys@.len() ==> our_keys@[j] < public_keys@.len(),
            out matches Ok(wallet) ==> {
                &&& wallet.name == name
                &&& wallet.our_key_indices == our_keys
                &&& wallet.created_at == created_at
                &&& wallet.script.required_signatures == required
                &&& wallet.script.total_keys == public_keys@.len()
                &&& wallet.script.public_keys == public_keys
                &&& wallet.script.script@ == multisig_script(required, keys_view(public_keys@))
                &&& wallet.address@ == "qtc"@ + base58_text(
                    address_payload(
                        ALTERNATE_VERSION,
                        sha256_digest(wallet.script.script@).subrange(0, 20),
                    ),
                )
            },
            out matches Err(e) ==> e == (match group_defect(required, public_keys@.len()) {
                Some(reason) => QtcError::Multisig(reason),
                None => QtcError::Multisig(MultisigReason::InvalidKeyIndex),
            }),
    {
        let script = match MultisigScript::new(required, public_keys) {
            Err(e) => {
                return Err(e);
            },
            Ok(s) => s,
        };
        let address = script.to_address();
        let mut i: usize = 0;
        while i < our_keys.len()
            invariant
                i <= our_keys@.len(),
                script.total_keys == public_keys@.len(),
                group_defect(required, public_keys@.len()) is None,
                forall|j: int| 0 <= j < i ==> our_keys@[j] < public_keys@.len(),
            decreases our_keys@.len() - i,
        {
            if our_keys[i] >= script.total_keys as usize {
                return Err(QtcError::Multisig(MultisigReason::InvalidKeyIndex));
            }
            i += 1;
        }
        Ok(MultisigWallet { name, script, our_key_indices: our_keys, address, created_at })
    }

    /// A wallet for a group of three with a threshold of two, one key of
    /// which is ours.
    pub fn create_2_of_3(
        name: String,
        key1: PublicKey,
        key2: PublicKey,
        key3: PublicKey,
        our_key_index: usize,
    ) -> (out: Result<Self, QtcError>)
        ensures
            out is Ok <==> our_key_index < 3,
            out matches Ok(wallet) ==> {
                &&& wallet.name == name
                &&& wallet.our_key_indices@ == seq![our_key_index]
                &&& wallet.script.required_signatures == 2
                &&& wallet.script.total_keys == 3
                &&& wallet.script.public_keys@ == seq![key1, key2, key3]
                &&& wallet.script.script@ == multisig_script(2, seq![key1@, key2@, key3@])
            },
            out matches Err(e) ==> e == QtcError::Multisig(MultisigReason::InvalidKeyIndex),
    {
        let mut public_keys: Vec<PublicKey> = Vec::new();
        public_keys.push(key1);
        public_keys.push(key2);
        public_keys.push(key3);
        let mut ours: Vec<usize> = Vec::new();
        ours.push(our_key_index);
        assert(keys_view(public_keys@) =~= seq![key1@, key2@, key3@]);
        assert(public_keys@ =~= seq![key1, key2, key3]);
        assert(ours@ =~= seq![our_key_index]);
        assert(ours@[0] == our_key_index);
        Self::new(name, 2, public_keys, ours)
    }

    /// A wallet for a group of exactly five with a threshold of three.
    pub fn create_3_of_5(name: String, public_keys: Vec<PublicKey>, our_key_indices: Vec<usize>) -> (out:
        Result<Self, QtcError>)
        ensures
            out is Ok <==> public_keys@.len() == 5 && forall|j: int|
                0 <= j < our_key_indices@.len() ==> our_key_indices@[j] < 5,
            out matches Ok(wallet) ==> {
                &&& wallet.name == name
                &&& wallet.our_key_indices == our_key_indices
                &&& wallet.script.required_signatures == 3
                &&& wallet.script.total_keys == 5
                &&& wallet.script.public_keys == public_keys
                &&& wallet.script.script@ == multisig_script(3, keys_view(public_keys@))
            },
            out matches Err(e) ==> e == if public_keys@.len() != 5 {
                QtcError::Multisig(MultisigReason::NeedFiveKeys)
            } else {
                QtcError::Multisig(MultisigReason::InvalidKeyIndex)
            },
    {
        if public_keys.len() != 5 {
            return Err(QtcError::Multisig(MultisigReason::NeedFiveKeys));
        }
        Self::new(name, 3, public_keys, our_key_indices)
    }

    /// Whether one of the keys is ours.
    pub fn can_sign(&self) -> (can: bool)
        ensures
            can == (self.our_key_indices@.len() > 0),
    {
        self.our_key_indices.len() > 0
    }

    pub fn required_signatures(&self) -> (required: u32)
        ensures
            required == self.script.required_signatures,
    {
        self.script.required_signatures
    }

    pub fn total_keys(&self) -> (total: u32)
        ensures
            total == self.script.total_keys,
    {
        self.script.total_keys
    }

    pub fn get_public_keys(&self) -> (keys: &[PublicKey])
        ensures
            keys@ == self.script.public_keys@,
    {
        self.script.public_keys.as_slice()
    }
}

/// The signature of one signer.
#[derive(Debug)]
pub struct PartialSignature {
    pub signer_index: usize,
    pub signature: Signature,
    pub public_key: PublicKey,
}

/// The signers of a sequence of partial signatures with their signatures.
pub open spec fn signed_by(signatures: Seq<PartialSignature>) -> Seq<(usize, SignatureView)> {
    signatures.map_values(|p: PartialSignature| (p.signer_index, p.signature@))
}

/// Whether the signers stand in strictly ascending order.
pub open spec fn ascending(signed: Seq<(usize, SignatureView)>) -> bool {
    forall|i: int, j: int| 0 <= i < j < signed.len() ==> signed[i].0 < signed[j].0
}

/// The signatures with that of `signer` put in its place in the order, in
/// place of an earlier one of the same signer.
pub open spec fn with_signature(
    signed: Seq<(usize, SignatureView)>,
    signer: usize,
    signature: SignatureView,
) -> Seq<(usize, SignatureView)>
    decreases signed.len(),
{
    if signed.len() == 0 {
        seq![(signer, signature)]
    } else if signed.last().0 < signer {
        signed.push((signer, signature))
    } else if signed.last().0 == signer {
        signed.drop_last().push((signer, signature))
    } else {
        with_signature(signed.drop_last(), signer, signature).push(signed.last())
    }
}

/// Whether the signature of a signer is taken: the signer is one of the
/// keys, and the signature is one of the curve and verifies under the
/// signer's key over the digest.
pub open spec fn signature_accepted(
    keys: Seq<Seq<u8>>,
    digest: Seq<u8>,
    signer: usize,
    signature: SignatureView,
) -> bool {
    signer < keys.len() && is_compact_signature(signature.compact()) && ecdsa_accepts(
        keys[signer as int],
        digest,
        signature.compact(),
    )
}

/// Why the signature of a signer is refused, where it is.
pub open spec fn signature_refusal(keys: Seq<Seq<u8>>, signer: usize, signature: SignatureView) -> QtcError {
    if signer >= keys.len() {
        QtcError::Multisig(MultisigReason::InvalidSignerIndex)
    } else if !is_compact_signature(signature.compact()) {
        QtcError::Crypto(CryptoReason::InvalidSignature)
    } else {
        QtcError::Multisig(MultisigReason::InvalidSignature)
    }
}

/// Where taking the first `n` of the offered signatures leads: the
/// signatures held, the number taken, and the refusal at which the taking
/// stopped, if it did. A signature whose signer has signed is passed over;
/// after a refusal nothing more is taken.
pub open spec fn imported(
    signed: Seq<(usize, SignatureView)>,
    keys: Seq<Seq<u8>>,
    digest: Seq<u8>,
    offered: Seq<(usize, SignatureView)>,
    n: nat,
) -> (Seq<(usize, SignatureView)>, int, Option<QtcError>)
    decreases n,
{
    if n == 0 {
        (signed, 0int, None)
    } else {
        let before = imported(signed, keys, digest, offered, (n - 1) as nat);
        let next = offered[n - 1];
        if before.2 is Some || has_signed(before.0, next.0) {
            before
        } else if signature_accepted(keys, digest, next.0, next.1) {
            (with_signature(before.0, next.0, next.1), before.1 + 1, None)
        } else {
            (before.0, before.1, Some(signature_refusal(keys, next.0, next.1)))
        }
    }
}

/// After a refusal nothing more is taken.
pub proof fn lemma_imported_stops(
    signed: Seq<(usize, SignatureView)>,
    keys: Seq<Seq<u8>>,
    digest: Seq<u8>,
    offered: Seq<(usize, SignatureView)>,
    n: nat,
    m: nat,
)
    requires
        n <= m,
        imported(signed, keys, digest, offered, n).2 is Some,
    ensures
        imported(signed, keys, digest, offered, m) == imported(signed, keys, digest, offered, n),
    decreases m - n,
{
    if n < m {
        lemma_imported_stops(signed, keys, digest, offered, n, (m - 1) as nat);
    }
}

/// Why a signer's private key does not sign, if it does not: the signer
/// is one of the keys; the private key has a public key of 33 or 65 bytes
/// on the curve, which is the signer's; its signature over the digest is
/// one of the curve and verifies under the signer's key.
pub open spec fn signing_refusal(
    keys: Seq<Seq<u8>>,
    digest: Seq<u8>,
    signer: usize,
    secret: Seq<u8>,
) -> Option<QtcError> {
    let public = crate::crypto::keys::secp_public_key(secret);
    let signature = crate::crypto::signatures::ecdsa_signature(secret, digest);
    if signer >= keys.len() {
        Some(QtcError::Multisig(MultisigReason::InvalidSignerIndex))
    } else if public.len() != 33 && public.len() != 65 {
        Some(QtcError::Crypto(CryptoReason::PublicKeyLength))
    } else if !crate::crypto::keys::is_curve_point(public) {
        Some(QtcError::Crypto(CryptoReason::InvalidPublicKey))
    } else if keys[signer as int] != public {
        Some(QtcError::Multisig(MultisigReason::KeyMismatch))
    } else if !is_compact_signature(signature) {
        Some(QtcError::Crypto(CryptoReason::InvalidSignature))
    } else if !ecdsa_accepts(public, digest, signature) {
        Some(QtcError::Multisig(MultisigReason::InvalidSignature))
    } else {
        None
    }
}

/// Whether `signer` has signed.
pub open spec fn has_signed(signed: Seq<(usize, SignatureView)>, signer: usize) -> bool {
    exists|i: int| 0 <= i < signed.len() && (#[trigger] signed[i]).0 == signer
}

/// The first `n` signatures, each with its length in one byte before its
/// 65 bytes.
pub open spec fn pushed_signatures(signed: Seq<(usize, SignatureView)>, n: nat) -> Seq<u8>
    decreases n,
{
    if n == 0 {
        Seq::empty()
    } else {
        pushed_signatures(signed, (n - 1) as nat) + seq![65u8] + signed[n - 1].1.compact().push(
            signed[n - 1].1.recovery_id,
        )
    }
}

/// The script that spends from a group: a zero, the first `required`
/// signatures in the order of their signers, and the redeem script with
/// its length in one byte before it.
pub open spec fn spending_script(
    signed: Seq<(usize, SignatureView)>,
    required: u32,
    redeem: Seq<u8>,
) -> Seq<u8> {
    seq![0u8] + pushed_signatures(signed, required as nat) + seq![(redeem.len() % 256) as u8]
        + redeem
}

/// Collects the signatures of a group over one input of a transaction.
#[derive(Debug)]
pub struct SignatureCollector {
    transaction: Transaction,
    input_index: usize,
    required_signatures: u32,
    signatures: Vec<PartialSignature>,
    script: MultisigScript,
}

impl SignatureCollector {
    /// The signatures stand in the order of their signers, no signer
    /// twice, and each signer is one of the keys.
    #[verifier::type_invariant]
    spec fn ordered(&self) -> bool {
        &&& ascending(signed_by(self.signatures@))
        &&& forall|i: int|
            0 <= i < self.signatures@.len() ==> (#[trigger] self.signatures@[i]).signer_index
                < self.script.public_keys@.len()
        &&& self.required_signatures == self.script.required_signatures
    }

    /// The signers so far with their signatures, in ascending order.
    pub closed spec fn signed(&self) -> Seq<(usize, SignatureView)> {
        signed_by(self.signatures@)
    }

    /// The transaction that is signed.
    pub closed spec fn tx(&self) -> TransactionView {
        self.transaction@
    }

    /// The input that is signed.
    pub closed spec fn input(&self) -> usize {
        self.input_index
    }

    /// The number of signatures that are needed.
    pub closed spec fn threshold(&self) -> u32 {
        self.required_signatures
    }

    /// The keys of the group.
    pub closed spec fn keys(&self) -> Seq<Seq<u8>> {
        keys_view(self.script.public_keys@)
    }

    /// The redeem script of the group.
    pub closed spec fn redeem_script(&self) -> Seq<u8> {
        self.script.script@
    }

    /// A collector without signatures.
    pub fn new(transaction: Transaction, input_index: usize, script: MultisigScript) -> (collector:
        Self)
        ensures
            collector.signed() == Seq::<(usize, SignatureView)>::empty(),
            collector.tx() == transaction@,
            collector.input() == input_index,
            collector.threshold() == script.required_signatures,
            collector.keys() == keys_view(script.public_keys@),
            collector.redeem_script() == script.script@,
    {
        let collector = SignatureCollector {
            transaction,
            input_index,
            required_signatures: script.required_signatures,
            signatures: Vec::new(),
            script,
        };
        assert(collector.signed() =~= Seq::<(usize, SignatureView)>::empty());
        collector
    }

    /// Takes the signature of signer `signer_index` where it verifies
    /// under that signer's key over the signature hash of the transaction,
    /// in place of an earlier one of the same signer.
    pub fn add_signature(&mut self, signer_index: usize, signature: Signature) -> (out: Result<
        (),
        QtcError,
    >)
        ensures
            out is Ok <==> signer_index < old(self).keys().len() && is_compact_signature(
                signature@.compact(),
            ) && ecdsa_accepts(
                old(self).keys()[signer_index as int],
                sha256_digest(old(self).tx().signing_encoding()),
                signature@.compact(),
            ),
            out is Ok ==> final(self).signed() == with_signature(
                old(self).signed(),
                signer_index,
                signature@,
            ),
            out is Err ==> final(self).signed() == old(self).signed(),
            out matches Err(e) ==> e == if signer_index >= old(self).keys().len() {
                QtcError::Multisig(MultisigReason::InvalidSignerIndex)
            } else if !is_compact_signature(signature@.compact()) {
                QtcError::Crypto(CryptoReason::InvalidSignature)
            } else {
                QtcError::Multisig(MultisigReason::InvalidSignature)
            },
            final(self).tx() == old(self).tx(),
            final(self).input() == old(self).input(),
            final(self).threshold() == old(self).threshold(),
            final(self).keys() == old(self).keys(),
            final(self).redeem_script() == old(self).redeem_script(),
    {
        proof {
            use_type_invariant(&*self);
        }
        if signer_index >= self.script.public_keys.len() {
            return Err(QtcError::Multisig(MultisigReason::InvalidSignerIndex));
        }
        let public_key = self.script.public_keys[signer_index].clone();
        let signature_hash = self.transaction.get_signature_hash(self.input_index);
        match public_key.verify(&signature_hash, &signature) {
            Err(e) => {
                return Err(e);
            },
            Ok(false) => {
                return Err(QtcError::Multisig(MultisigReason::InvalidSignature));
            },
            Ok(true) => {},
        }
        let partial = PartialSignature { signer_index, signature, public_key };
        let ghost before = signed_by(self.signatures@);
        let ghost total = self.script.public_keys@.len();
        // The signatures are taken out, changed and put back.
        let mut taken: Vec<PartialSignature> = Vec::new();
        std::mem::swap(&mut self.signatures, &mut taken);
        // The place in the order: after every smaller signer.
        let mut at: usize = taken.len();
        while at > 0 && taken[at - 1].signer_index > signer_index
            invariant
                at <= taken@.len(),
                before == signed_by(taken@),
                ascending(before),
                forall|j: int| at <= j < before.len() ==> before[j].0 > signer_index,
            decreases at,
        {
            at -= 1;
        }
        let replaces = at > 0 && taken[at - 1].signer_index == signer_index;
        proof {
            lemma_with_signature_at(before, signer_index, signature@, at as int);
        }
        if replaces {
            taken.set(at - 1, partial);
            assert(signed_by(taken@) =~= before.update(at as int - 1, (signer_index, signature@)));
        } else {
            taken.insert(at, partial);
            assert(signed_by(taken@) =~= before.insert(at as int, (signer_index, signature@)));
        }
        assert forall|i: int| 0 <= i < taken@.len() implies (#[trigger] taken@[i]).signer_index
            < total by {
            assert(signed_by(taken@)[i].0 == taken@[i].signer_index);
            if replaces {
                if i != at - 1 {
                    assert(signed_by(taken@)[i] == before[i]);
                }
            } else {
                if i < at {
                    assert(signed_by(taken@)[i] == before[i]);
                } else if i > at {
                    assert(signed_by(taken@)[i] == before[i - 1]);
                }
            }
        }
        std::mem::swap(&mut self.signatures, &mut taken);
        Ok(())
    }

    /// Signs as signer `signer_index` with its private key and takes the
    /// signature, where the private key is that of the signer's public
    /// key.
    pub fn sign_with_key(
        &mut self,
        signer_index: usize,
        private_key: &crate::crypto::keys::PrivateKey,
    ) -> (out: Result<(), QtcError>)
        ensures
            out is Ok <==> signing_refusal(
                old(self).keys(),
                sha256_digest(old(self).tx().signing_encoding()),
                signer_index,
                private_key@,
            ) is None,
            out matches Err(e) ==> Some(e) == signing_refusal(
                old(self).keys(),
                sha256_digest(old(self).tx().signing_encoding()),
                signer_index,
                private_key@,
            ),
            out is Ok ==> final(self).signed() == with_signature(
                old(self).signed(),
                signer_index,
                SignatureView {
                    r: crate::crypto::signatures::ecdsa_signature(
                        private_key@,
                        sha256_digest(old(self).tx().signing_encoding()),
                    ).subrange(0, 32),
                    s: crate::crypto::signatures::ecdsa_signature(
                        private_key@,
                        sha256_digest(old(self).tx().signing_encoding()),
                    ).subrange(32, 64),
                    recovery_id: 0,
                },
            ) && old(self).keys()[signer_index as int] == crate::crypto::keys::secp_public_key(
                private_key@,
            ),
            out is Err ==> final(self).signed() == old(self).signed(),
            signer_index >= old(self).keys().len() ==> out == Err::<(), QtcError>(
                QtcError::Multisig(MultisigReason::InvalidSignerIndex),
            ),
            final(self).tx() == old(self).tx(),
            final(self).input() == old(self).input(),
            final(self).threshold() == old(self).threshold(),
            final(self).keys() == old(self).keys(),
            final(self).redeem_script() == old(self).redeem_script(),
    {
        proof {
            use_type_invariant(&*self);
        }
        if signer_index >= self.script.public_keys.len() {
            return Err(QtcError::Multisig(MultisigReason::InvalidSignerIndex));
        }
        let actual = match private_key.public_key() {
            Err(e) => {
                return Err(e);
            },
            Ok(k) => k,
        };
        if !crate::crypto::hash::bytes_equal(
            self.script.public_keys[signer_index].to_bytes(),
            actual.to_bytes(),
        ) {
            return Err(QtcError::Multisig(MultisigReason::KeyMismatch));
        }
        let signature_hash = self.transaction.get_signature_hash(self.input_index);
        let signature = match private_key.sign(&signature_hash) {
            Err(e) => {
                return Err(e);
            },
            Ok(s) => s,
        };
        proof {
            let compact = crate::crypto::signatures::ecdsa_signature(
                private_key@,
                sha256_digest(self.tx().signing_encoding()),
            );
            signature.lemma_halves();
            assert(signature@ == (SignatureView {
                r: compact.subrange(0, 32),
                s: compact.subrange(32, 64),
                recovery_id: 0,
            }));
            assert(signature@.compact() == compact);
            assert(self.keys()[signer_index as int] == self.script.public_keys@[signer_index as int]@);
        }
        self.add_signature(signer_index, signature)
    }

    /// Whether as many have signed as the threshold asks for.
    pub fn is_complete(&self) -> (complete: bool)
        ensures
            complete == (self.signed().len() >= self.threshold()),
    {
        self.signatures.len() as u128 >= self.required_signatures as u128
    }

    pub fn get_signatures_count(&self) -> (count: usize)
        ensures
            count == self.signed().len(),
    {
        self.signatures.len()
    }

    /// The number of signatures that are still needed.
    pub fn get_missing_signatures(&self) -> (missing: u32)
        ensures
            missing == if self.signed().len() >= self.threshold() {
                0
            } else {
                self.threshold() - self.signed().len()
            },
    {
        if self.signatures.len() as u128 >= self.required_signatures as u128 {
            0
        } else {
            self.required_signatures - self.signatures.len() as u32
        }
    }

    /// The transaction with the spending script in the signed input, once
    /// enough have signed. Where the transaction has no such input it is
    /// given as it is.
    pub fn finalize_transaction(&self) -> (out: Result<Transaction, QtcError>)
        ensures
            out is Ok <==> self.signed().len() >= self.threshold(),
            out matches Ok(tx) ==> tx@ == if self.input() < self.tx().inputs.len() {
                TransactionView {
                    inputs: self.tx().inputs.update(
                        self.input() as int,
                        TxInputView {
                            signature_script: spending_script(
                                self.signed(),
                                self.threshold(),
                                self.redeem_script(),
                            ),
                            ..self.tx().inputs[self.input() as int]
                        },
                    ),
                    ..self.tx()
                }
            } else {
                self.tx()
            },
            out matches Err(e) ==> e == QtcError::Multisig(
                MultisigReason::NotEnoughSignatures {
                    have: self.signed().len() as usize,
                    need: self.threshold(),
                },
            ),
    {
        if !self.is_complete() {
            return Err(
                QtcError::Multisig(
                    MultisigReason::NotEnoughSignatures {
                        have: self.signatures.len(),
                        need: self.required_signatures,
                    },
                ),
            );
        }
        let ghost signed = self.signed();
        let mut signature_script: Vec<u8> = Vec::new();
        signature_script.push(0x00);
        let mut i: usize = 0;
        while i < self.required_signatures as usize
            invariant
                i <= self.required_signatures,
                self.required_signatures <= self.signatures@.len(),
                signed == signed_by(self.signatures@),
                signature_script@ == seq![0u8] + pushed_signatures(signed, i as nat),
            decreases self.required_signatures - i,
        {
            let sig_bytes = self.signatures[i].signature.to_bytes();
            signature_script.push(sig_bytes.len() as u8);
            put_bytes(&mut signature_script, sig_bytes.as_slice());
            assert(signature_script@ =~= seq![0u8] + pushed_signatures(signed, (i + 1) as nat));
            i += 1;
        }
        let redeem_script = self.script.get_redeem_script();
        signature_script.push((redeem_script.len() % 256) as u8);
        put_bytes(&mut signature_script, redeem_script);
        assert(signature_script@ =~= spending_script(
            signed,
            self.required_signatures,
            self.script.script@,
        ));
        let mut inputs = clone_inputs(&self.transaction.inputs);
        let ghost untouched = inputs_view(inputs@);
        if self.input_index < inputs.len() {
            let old_input = &inputs[self.input_index];
            let replaced = TxInput {
                previous_output: old_input.previous_output.clone(),
                signature_script,
                sequence: old_input.sequence,
            };
            inputs.set(self.input_index, replaced);
            assert(inputs_view(inputs@) =~= untouched.update(self.input_index as int, replaced@));
        }
        Ok(
            Transaction {
                inputs,
                outputs: clone_outputs(&self.transaction.outputs),
                lock_time: self.transaction.lock_time,
                version: self.transaction.version,
            },
        )
    }

    /// The signers so far with their signatures, in ascending order.
    pub fn export_partial_signatures(&self) -> (exported: Vec<(usize, Signature)>)
        ensures
            exported@.map_values(|p: (usize, Signature)| (p.0, p.1@)) == self.signed(),
    {
        let mut exported: Vec<(usize, Signature)> = Vec::new();
        let mut i: usize = 0;
        while i < self.signatures.len()
            invariant
                i <= self.signatures@.len(),
                exported@.len() == i,
                forall|j: int|
                    0 <= j < i ==> (#[trigger] exported@[j]).0 == self.signatures@[j].signer_index
                        && exported@[j].1@ == self.signatures@[j].signature@,
            decreases self.signatures@.len() - i,
        {
            exported.push((self.signatures[i].signer_index, self.signatures[i].signature));
            i += 1;
        }
        assert(exported@.map_values(|p: (usize, Signature)| (p.0, p.1@)) =~= self.signed());
        exported
    }

    /// Takes each of `signatures` whose signer has not signed yet, in
    /// order, and stops at the first that is refused. Gives the number
    /// taken, or the refusal; what was taken before a refusal stays.
    pub fn import_partial_signatures(&mut self, signatures: Vec<(usize, Signature)>) -> (out:
        Result<usize, QtcError>)
        ensures
            ({
                let reached = imported(
                    old(self).signed(),
                    old(self).keys(),
                    sha256_digest(old(self).tx().signing_encoding()),
                    signatures@.map_values(|p: (usize, Signature)| (p.0, p.1@)),
                    signatures@.len(),
                );
                &&& final(self).signed() == reached.0
                &&& match reached.2 {
                    Some(e) => out == Err::<usize, QtcError>(e),
                    None => out == Ok::<usize, QtcError>(reached.1 as usize),
                }
            }),
            final(self).tx() == old(self).tx(),
            final(self).input() == old(self).input(),
            final(self).threshold() == old(self).threshold(),
            final(self).keys() == old(self).keys(),
            final(self).redeem_script() == old(self).redeem_script(),
    {
        let ghost offered = signatures@.map_values(|p: (usize, Signature)| (p.0, p.1@));
        let ghost start = self.signed();
        let ghost keys = self.keys();
        let ghost digest = sha256_digest(self.tx().signing_encoding());
        let mut added: usize = 0;
        let mut i: usize = 0;
        while i < signatures.len()
            invariant
                i <= signatures@.len(),
                added <= i,
                offered == signatures@.map_values(|p: (usize, Signature)| (p.0, p.1@)),
                start == old(self).signed(),
                keys == old(self).keys(),
                digest == sha256_digest(old(self).tx().signing_encoding()),
                imported(start, keys, digest, offered, i as nat) == (
                    self.signed(),
                    added as int,
                    None::<QtcError>,
                ),
                self.tx() == old(self).tx(),
                self.input() == old(self).input(),
                self.threshold() == old(self).threshold(),
                self.keys() == old(self).keys(),
                self.redeem_script() == old(self).redeem_script(),
            decreases signatures@.len() - i,
        {
            let (signer_index, signature) = signatures[i];
            assert(offered[i as int] == (signer_index, signature@));
            if !self.has_signature_of(signer_index) {
                match self.add_signature(signer_index, signature) {
                    Err(e) => {
                        proof {
                            assert(imported(start, keys, digest, offered, (i + 1) as nat) == (
                                self.signed(),
                                added as int,
                                Some(e),
                            ));
                            lemma_imported_stops(
                                start,
                                keys,
                                digest,
                                offered,
                                (i + 1) as nat,
                                signatures@.len(),
                            );
                        }
                        return Err(e);
                    },
                    Ok(()) => {
                        added += 1;
                    },
                }
            }
            i += 1;
        }
        Ok(added)
    }

    /// Whether `signer_index` has signed.
    pub fn has_signature_of(&self, signer_index: usize) -> (found: bool)
        ensures
            found == has_signed(self.signed(), signer_index),
    {
        let mut i: usize = 0;
        while i < self.signatures.len()
            invariant
                i <= self.signatures@.len(),
                forall|j: int| 0 <= j < i ==> (#[trigger] self.signed()[j]).0 != signer_index,
            decreases self.signatures@.len() - i,
        {
            if self.signatures[i].signer_index == signer_index {
                assert(self.signed()[i as int].0 == signer_index);
                return true;
            }
            i += 1;
        }
        false
    }

    /// The collector as bytes: the tag `psbt` and 0xff, the encoded
    /// transaction as a byte field, and for every signer in order its
    /// index, the length 65 and its signature, one byte each for index and
    /// length.
    pub fn to_psbt(&self) -> (out: Result<Vec<u8>, QtcError>)
        ensures
            out matches Ok(bytes) && bytes@ == psbt_bytes(self.tx(), self.signed()),
    {
        let ghost signed = self.signed();
        let mut psbt_data: Vec<u8> = Vec::new();
        let magic: [u8; 5] = [0x70, 0x73, 0x62, 0x74, 0xff];
        put_bytes(&mut psbt_data, magic.as_slice());
        assert(psbt_data@ =~= psbt_tag());
        let tx_bytes = self.transaction.encode();
        crate::chain::codec::put_var_bytes(&mut psbt_data, tx_bytes.as_slice());
        let ghost head = psbt_data@;
        let mut i: usize = 0;
        while i < self.signatures.len()
            invariant
                i <= self.signatures@.len(),
                signed == signed_by(self.signatures@),
                psbt_data@ == head + psbt_signatures(signed, i as nat),
            decreases self.signatures@.len() - i,
        {
            psbt_data.push((self.signatures[i].signer_index % 256) as u8);
            let sig_bytes = self.signatures[i].signature.to_bytes();
            psbt_data.push(sig_bytes.len() as u8);
            put_bytes(&mut psbt_data, sig_bytes.as_slice());
            assert(psbt_data@ =~= head + psbt_signatures(signed, (i + 1) as nat));
            i += 1;
        }
        Ok(psbt_data)
    }

    /// Reading a collector back is not supported: bytes without the tag
    /// are refused as malformed, all others as unsupported.
    pub fn from_psbt(psbt_data: &[u8], script: MultisigScript) -> (out: Result<Self, QtcError>)
        ensures
            out matches Err(e) && e == if psbt_data@.len() >= 5 && psbt_data@.subrange(0, 5)
                == psbt_tag() {
                QtcError::Multisig(MultisigReason::PsbtNotSupported)
            } else {
                QtcError::Multisig(MultisigReason::InvalidPsbt)
            },
    {
        if psbt_data.len() < 5 {
            return Err(QtcError::Multisig(MultisigReason::InvalidPsbt));
        }
        let magic: [u8; 5] = [0x70, 0x73, 0x62, 0x74, 0xff];
        assert(magic@ =~= psbt_tag());
        let head = vstd::slice::slice_subrange(psbt_data, 0, 5);
        if !crate::crypto::hash::bytes_equal(head, magic.as_slice()) {
            return Err(QtcError::Multisig(MultisigReason::InvalidPsbt));
        }
        Err(QtcError::Multisig(MultisigReason::PsbtNotSupported))
    }
}

/// The tag of a collector in bytes: `psbt` and 0xff.
pub open spec fn psbt_tag() -> Seq<u8> {
    seq![0x70u8, 0x73, 0x62, 0x74, 0xff]
}

/// The first `n` signatures as they stand in a collector in bytes: for
/// each the signer's index in one byte, the length 65 and the 65 bytes.
pub open spec fn psbt_signatures(signed: Seq<(usize, SignatureView)>, n: nat) -> Seq<u8>
    decreases n,
{
    if n == 0 {
        Seq::empty()
    } else {
        psbt_signatures(signed, (n - 1) as nat) + seq![(signed[n - 1].0 % 256) as u8, 65u8]
            + signed[n - 1].1.compact().push(signed[n - 1].1.recovery_id)
    }
}

/// A collector in bytes.
pub open spec fn psbt_bytes(tx: TransactionView, signed: Seq<(usize, SignatureView)>) -> Seq<u8> {
    psbt_tag() + crate::chain::codec::encode_bytes(tx.encoding()) + psbt_signatures(
        signed,
        signed.len(),
    )
}

/// Where a signature goes in the order: `at` is the place after every
/// smaller signer.
pub proof fn lemma_with_signature_at(
    signed: Seq<(usize, SignatureView)>,
    signer: usize,
    signature: SignatureView,
    at: int,
)
    requires
        ascending(signed),
        0 <= at <= signed.len(),
        forall|j: int| at <= j < signed.len() ==> signed[j].0 > signer,
        at > 0 ==> signed[at - 1].0 <= signer,
    ensures
        with_signature(signed, signer, signature) == if at > 0 && signed[at - 1].0 == signer {
            signed.update(at - 1, (signer, signature))
        } else {
            signed.insert(at, (signer, signature))
        },
        ascending(with_signature(signed, signer, signature)),
    decreases signed.len(),
{
    let entry = (signer, signature);
    if signed.len() == 0 {
        assert(seq![entry] =~= signed.insert(0, entry));
    } else if at == signed.len() {
        if signed.last().0 == signer {
            assert(signed.drop_last().push(entry) =~= signed.update(at - 1, entry));
        } else {
            assert(signed.push(entry) =~= signed.insert(at, entry));
        }
    } else {
        let rest = signed.drop_last();
        assert(ascending(rest)) by {
            assert forall|i: int, j: int| 0 <= i < j < rest.len() implies rest[i].0 < rest[j].0 by {
                assert(rest[i] == signed[i]);
                assert(rest[j] == signed[j]);
            }
        }
        lemma_with_signature_at(rest, signer, signature, at);
        if at > 0 && signed[at - 1].0 == signer {
            assert(rest.update(at - 1, entry).push(signed.last()) =~= signed.update(
                at - 1,
                entry,
            ));
        } else {
            assert(rest.insert(at, entry).push(signed.last()) =~= signed.insert(at, entry));
        }
    }
    let result = with_signature(signed, signer, signature);
    assert forall|i: int, j: int| 0 <= i < j < result.len() implies result[i].0 < result[j].0 by {
        if at > 0 && signed[at - 1].0 == signer {
            assert(result[i].0 == signed[i].0);
            assert(result[j].0 == signed[j].0);
        } else {
            if j < at {
                assert(result[i] == signed[i] && result[j] == signed[j]);
            } else if j == at {
                assert(result[i] == signed[i]);
                assert(signed[i].0 <= signed[at - 1].0);
            } else if i < at {
                assert(result[i] == signed[i] && result[j] == signed[j - 1]);
            } else if i == at {
                assert(result[j] == signed[j - 1]);
            } else {
                assert(result[i] == signed[i - 1] && result[j] == signed[j - 1]);
            }
        }
    }
}

/// A signature adds at most one to the number of signatures.
pub proof fn lemma_with_signature_len(
    signed: Seq<(usize, SignatureView)>,
    signer: usize,
    signature: SignatureView,
)
    ensures
        signed.len() <= with_signature(signed, signer, signature).len() <= signed.len() + 1,
    decreases signed.len(),
{
    if signed.len() > 0 && signed.last().0 > signer {
        lemma_with_signature_len(signed.drop_last(), signer, signature);
    }
}

/// Whether the byte string `a` stands before `b` or is `b`, byte by byte,
/// a string before every longer one that starts with it.
pub open spec fn lex_le(a: Seq<u8>, b: Seq<u8>) -> bool
    decreases a.len(),
{
    if a.len() == 0 {
        true
    } else if b.len() == 0 {
        false
    } else if a[0] != b[0] {
        a[0] < b[0]
    } else {
        lex_le(a.drop_first(), b.drop_first())
    }
}

/// Whether each byte string stands before the next or is the next.
pub open spec fn lex_sorted(keys: Seq<Seq<u8>>) -> bool {
    forall|i: int| 0 <= i < keys.len() - 1 ==> lex_le(#[trigger] keys[i], keys[i + 1])
}

/// Of two byte strings one stands before the other or is the other.
pub proof fn lemma_lex_total(a: Seq<u8>, b: Seq<u8>)
    ensures
        lex_le(a, b) || lex_le(b, a),
    decreases a.len(),
{
    if a.len() > 0 && b.len() > 0 && a[0] == b[0] {
        lemma_lex_total(a.drop_first(), b.drop_first());
    }
}

/// Whether the byte string `a` stands before `b` or is `b`.
pub fn bytes_lex_le(a: &[u8], b: &[u8]) -> (le: bool)
    ensures
        le == lex_le(a@, b@),
{
    let mut i: usize = 0;
    assert(a@.skip(0) =~= a@ && b@.skip(0) =~= b@);
    while i < a.len() && i < b.len()
        invariant
            i <= a@.len(),
            i <= b@.len(),
            lex_le(a@, b@) == lex_le(a@.skip(i as int), b@.skip(i as int)),
        decreases a@.len() - i,
    {
        assert(a@.skip(i as int)[0] == a@[i as int]);
        assert(b@.skip(i as int)[0] == b@[i as int]);
        if a[i] != b[i] {
            return a[i] < b[i];
        }
        assert(a@.skip(i as int).drop_first() =~= a@.skip(i as int + 1));
        assert(b@.skip(i as int).drop_first() =~= b@.skip(i as int + 1));
        i += 1;
    }
    assert(a@.skip(i as int).len() == a@.len() - i);
    assert(b@.skip(i as int).len() == b@.len() - i);
    i == a.len()
}

/// Rules of thumb for groups.
pub struct MultisigUtils;

impl MultisigUtils {
    /// Accepts a threshold and a number of keys: the threshold is at least
    /// one and at most the number of keys, of which there are at most
    /// twenty.
    pub fn validate_multisig_params(required: u32, total: u32) -> (out: Result<(), QtcError>)
        ensures
            out is Ok <==> group_defect(required, total as nat) is None,
            out matches Err(e) ==> Some(e) == (match group_defect(required, total as nat) {
                Some(reason) => Some(QtcError::Multisig(reason)),
                None => None,
            }),
    {
        if required == 0 {
            return Err(QtcError::Multisig(MultisigReason::InvalidThreshold));
        }
        if required > total {
            return Err(QtcError::Multisig(MultisigReason::InvalidThreshold));
        }
        if total > 20 {
            return Err(QtcError::Multisig(MultisigReason::TooManyKeys));
        }
        Ok(())
    }

    /// The keys in their canonical order: byte by byte, each before the
    /// next or equal to it. The same keys come out as went in.
    pub fn sort_public_keys(public_keys: Vec<PublicKey>) -> (sorted: Vec<PublicKey>)
        ensures
            lex_sorted(keys_view(sorted@)),
            keys_view(sorted@).to_multiset() == keys_view(public_keys@).to_multiset(),
    {
        let ghost all = keys_view(public_keys@);
        let mut rest = public_keys;
        let mut sorted: Vec<PublicKey> = Vec::new();
        proof {
            assert(keys_view(sorted@) =~= Seq::<Seq<u8>>::empty());
            vstd::seq_lib::lemma_multiset_commutative(keys_view(sorted@), keys_view(rest@));
            assert(keys_view(sorted@) + keys_view(rest@) =~= all);
        }
        while rest.len() > 0
            invariant
                lex_sorted(keys_view(sorted@)),
                keys_view(sorted@).to_multiset().add(keys_view(rest@).to_multiset())
                    == all.to_multiset(),
            decreases rest@.len(),
        {
            let ghost rest_before = keys_view(rest@);
            let ghost sorted_before = keys_view(sorted@);
            let key = match rest.pop() {
                Some(k) => k,
                None => {
                    return sorted;
                },
            };
            proof {
                assert(keys_view(rest@) =~= rest_before.drop_last());
                assert(rest_before =~= keys_view(rest@).push(key@));
                vstd::seq_lib::to_multiset_build(keys_view(rest@), key@);
            }
            let mut at: usize = 0;
            while at < sorted.len() && bytes_lex_le(sorted[at].to_bytes(), key.to_bytes())
                invariant
                    at <= sorted@.len(),
                    sorted_before == keys_view(sorted@),
                    forall|j: int| 0 <= j < at ==> lex_le(#[trigger] sorted_before[j], key@),
                decreases sorted@.len() - at,
            {
                assert(sorted_before[at as int] == sorted@[at as int]@);
                at += 1;
            }
            proof {
                if at < sorted@.len() {
                    assert(sorted_before[at as int] == sorted@[at as int]@);
                    lemma_lex_total(sorted_before[at as int], key@);
                }
                vstd::seq_lib::to_multiset_insert(sorted_before, at as int, key@);
            }
            sorted.insert(at, key);
            proof {
                let after = keys_view(sorted@);
                assert(after =~= sorted_before.insert(at as int, key@));
                assert forall|i: int| 0 <= i < after.len() - 1 implies lex_le(
                    #[trigger] after[i],
                    after[i + 1],
                ) by {
                    if i + 1 < at {
                        assert(after[i] == sorted_before[i] && after[i + 1] == sorted_before[i + 1]);
                    } else if i + 1 == at {
                        assert(after[i] == sorted_before[i]);
                    } else if i == at {
                        assert(after[i + 1] == sorted_before[at as int]);
                    } else {
                        assert(after[i] == sorted_before[i - 1] && after[i + 1] == sorted_before[i]);
                    }
                }
                assert(keys_view(sorted@).to_multiset().add(keys_view(rest@).to_multiset())
                    =~= all.to_multiset());
            }
        }
        proof {
            assert(keys_view(rest@) =~= Seq::<Seq<u8>>::empty());
            assert(keys_view(rest@).to_multiset() =~= vstd::multiset::Multiset::<Seq<u8>>::empty())
                by {
                keys_view(rest@).to_multiset_ensures();
                vstd::seq_lib::to_multiset_len(keys_view(rest@));
            }
            assert(keys_view(sorted@).to_multiset() =~= all.to_multiset());
        }
        sorted
    }

    /// The estimated size in bytes of a transaction that spends from a
    /// group: 10 for the frame, 180 for the input, 68 for two outputs, and
    /// for the script 73 for each signature, 33 for each key and 4; held
    /// at `usize::MAX` where it would pass it.
    pub fn estimate_multisig_size(required: u32, total: u32) -> (size: usize)
        ensures
            size == if 262 + 73 * required + 33 * total <= usize::MAX {
                262 + 73 * required + 33 * total
            } else {
                usize::MAX as int
            },
    {
        let script_size: u64 = 1 + (required as u64) * 73 + 1 + (total as u64) * 33 + 2;
        let size: u64 = 10 + 180 + script_size + 68;
        if size > usize::MAX as u64 {
            usize::MAX
        } else {
            size as usize
        }
    }

    /// The fee for the estimated size at a rate per byte, held at
    /// `u64::MAX` where it would pass it.
    pub fn calculate_multisig_fee(required: u32, total: u32, fee_rate: u64) -> (fee: u64)
        ensures
            fee == if (262 + 73 * required + 33 * total) * fee_rate <= u64::MAX {
                (262 + 73 * required + 33 * total) * fee_rate
            } else {
                u64::MAX as int
            },
    {
        let size: u128 = 262 + 73 * (required as u128) + 33 * (total as u128);
        proof {
            assert(size * fee_rate <= 0x1_0000_0000_0000 * 0xFFFF_FFFF_FFFF_FFFF)
                by (nonlinear_arith)
                requires
                    0 <= size <= 0x1_0000_0000_0000,
                    0 <= fee_rate <= 0xFFFF_FFFF_FFFF_FFFF,
            ;
        }
        let fee: u128 = size * (fee_rate as u128);
        if fee > u64::MAX as u128 {
            u64::MAX
        } else {
            fee as u64
        }
    }
}

} // verus!
