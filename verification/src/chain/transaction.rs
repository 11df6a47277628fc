//! Transactions: inputs that name earlier outputs, outputs that carry value
//! to a script, and the hash that commits to both.

use crate::chain::codec::{encode_bytes, len_prefix, put_bytes, put_len, put_u32, put_u64, put_var_bytes, u32_le, u64_le};
use crate::crypto::hash::{sha256_digest, zero_bytes, Hash256, Hashable};
use vstd::prelude::*;

verus! {

/// The output index of the sentinel that a coinbase input names.
pub const NULL_VOUT: u32 = 0xFFFF_FFFF;

/// The sequence number that inputs are given.
pub const FINAL_SEQUENCE: u32 = 0xFFFF_FFFF;

/// `OP_DUP`.
pub const OP_DUP: u8 = 0x76;

/// `OP_HASH160`.
pub const OP_HASH160: u8 = 0xa9;

/// `OP_EQUALVERIFY`.
pub const OP_EQUALVERIFY: u8 = 0x88;

/// `OP_CHECKSIG`.
pub const OP_CHECKSIG: u8 = 0xac;

/// The model of an [`OutPoint`].
pub struct OutPointView {
    pub txid: Seq<u8>,
    pub vout: u32,
}

/// The model of a [`TxInput`].
pub struct TxInputView {
    pub previous_output: OutPointView,
    pub signature_script: Seq<u8>,
    pub sequence: u32,
}

/// The model of a [`TxOutput`].
pub struct TxOutputView {
    pub value: u64,
    pub script_pubkey: Seq<u8>,
}

/// The model of a [`Transaction`].
pub struct TransactionView {
    pub version: u32,
    pub inputs: Seq<TxInputView>,
    pub outputs: Seq<TxOutputView>,
    pub lock_time: u64,
}

impl OutPointView {
    /// The sentinel `(zero, 0xFFFFFFFF)` that only a coinbase input names.
    pub open spec fn is_null(self) -> bool {
        self.txid == zero_bytes(32) && self.vout == NULL_VOUT
    }

    pub open spec fn encoding(self) -> Seq<u8> {
        self.txid + u32_le(self.vout)
    }
}

impl TxInputView {
    pub open spec fn encoding(self) -> Seq<u8> {
        self.previous_output.encoding() + encode_bytes(self.signature_script) + u32_le(
            self.sequence,
        )
    }

    /// The encoding with the signature script left empty, as it is signed.
    pub open spec fn unsigned_encoding(self) -> Seq<u8> {
        self.previous_output.encoding() + u32_le(0) + u32_le(self.sequence)
    }
}

impl TxOutputView {
    pub open spec fn encoding(self) -> Seq<u8> {
        u64_le(self.value) + encode_bytes(self.script_pubkey)
    }
}

/// The encodings of a sequence of inputs, one after another.
pub open spec fn encode_inputs(inputs: Seq<TxInputView>) -> Seq<u8>
    decreases inputs.len(),
{
    if inputs.len() == 0 {
        Seq::empty()
    } else {
        encode_inputs(inputs.drop_last()) + inputs.last().encoding()
    }
}

/// The encodings of a sequence of inputs with their scripts left empty.
pub open spec fn encode_unsigned_inputs(inputs: Seq<TxInputView>) -> Seq<u8>
    decreases inputs.len(),
{
    if inputs.len() == 0 {
        Seq::empty()
    } else {
        encode_unsigned_inputs(inputs.drop_last()) + inputs.last().unsigned_encoding()
    }
}

/// The encodings of a sequence of outputs, one after another.
pub open spec fn encode_outputs(outputs: Seq<TxOutputView>) -> Seq<u8>
    decreases outputs.len(),
{
    if outputs.len() == 0 {
        Seq::empty()
    } else {
        encode_outputs(outputs.drop_last()) + outputs.last().encoding()
    }
}

/// The sum of the values of a sequence of outputs.
pub open spec fn sum_output_values(outputs: Seq<TxOutputView>) -> int
    decreases outputs.len(),
{
    if outputs.len() == 0 {
        0
    } else {
        sum_output_values(outputs.drop_last()) + outputs.last().value
    }
}

/// The pay-to-key-hash script for a 20-byte hash:
/// `OP_DUP OP_HASH160 <20 bytes> OP_EQUALVERIFY OP_CHECKSIG`.
pub open spec fn p2pkh_script(hash: Seq<u8>) -> Seq<u8> {
    seq![OP_DUP, OP_HASH160, 20u8] + hash + seq![OP_EQUALVERIFY, OP_CHECKSIG]
}

/// The last 64 bytes of a signature script, where a signature stands.
pub open spec fn script_signature(script: Seq<u8>) -> Seq<u8> {
    script.subrange(script.len() - 64, script.len() as int)
}

/// The script that pays to an address text: the pay-to-key-hash script of
/// the first 20 bytes of the SHA-256 digest of the text.
pub open spec fn script_for_address(address: Seq<char>) -> Seq<u8> {
    p2pkh_script(sha256_digest(vstd::utf8::encode_utf8(address)).subrange(0, 20))
}

impl TransactionView {
    /// Exactly one input, and it names the null sentinel.
    pub open spec fn is_coinbase(self) -> bool {
        self.inputs.len() == 1 && self.inputs[0].previous_output.is_null()
    }

    /// The script of the first input, which in a coinbase carries its
    /// payload.
    pub open spec fn signature_script_of_coinbase(self) -> Seq<u8> {
        self.inputs[0].signature_script
    }

    /// The sum of the output values.
    pub open spec fn total_output_value(self) -> int {
        sum_output_values(self.outputs)
    }

    pub open spec fn encoding(self) -> Seq<u8> {
        u32_le(self.version) + len_prefix(self.inputs.len()) + encode_inputs(self.inputs)
            + len_prefix(self.outputs.len()) + encode_outputs(self.outputs) + u64_le(
            self.lock_time,
        )
    }

    /// What is signed for every input: the encoding with all signature
    /// scripts left empty, followed by the hash type `1`.
    pub open spec fn signing_encoding(self) -> Seq<u8> {
        u32_le(self.version) + len_prefix(self.inputs.len()) + encode_unsigned_inputs(
            self.inputs,
        ) + len_prefix(self.outputs.len()) + encode_outputs(self.outputs) + u64_le(
            self.lock_time,
        ) + u32_le(1)
    }

    /// The transaction identifier.
    pub open spec fn txid(self) -> Seq<u8> {
        sha256_digest(self.encoding())
    }
}

/// A reference to one output of one transaction.
#[derive(Debug, Eq, Hash)]
pub struct OutPoint {
    pub txid: Hash256,
    pub vout: u32,
}

impl View for OutPoint {
    type V = OutPointView;

    open spec fn view(&self) -> OutPointView {
        OutPointView { txid: self.txid@, vout: self.vout }
    }
}

impl Clone for OutPoint {
    fn clone(&self) -> (copy: Self)
        ensures
            copy@ == self@,
    {
        OutPoint { txid: self.txid, vout: self.vout }
    }
}

impl PartialEq for OutPoint {
    fn eq(&self, other: &Self) -> (same: bool) {
        self.txid == other.txid && self.vout == other.vout
    }
}

impl vstd::std_specs::cmp::PartialEqSpecImpl for OutPoint {
    open spec fn obeys_eq_spec() -> bool {
        true
    }

    open spec fn eq_spec(&self, other: &Self) -> bool {
        self@ == other@
    }
}

impl OutPoint {
    pub fn new(txid: Hash256, vout: u32) -> (point: Self)
        ensures
            point@ == (OutPointView { txid: txid@, vout }),
    {
        OutPoint { txid, vout }
    }

    /// Whether this is the sentinel of a coinbase input.
    pub fn is_null(&self) -> (null: bool)
        ensures
            null == self@.is_null(),
    {
        self.txid == Hash256::zero() && self.vout == NULL_VOUT
    }

    /// Appends the canonical encoding.
    pub fn encode_into(&self, buf: &mut Vec<u8>)
        ensures
            final(buf)@ == old(buf)@ + self@.encoding(),
    {
        put_bytes(buf, self.txid.as_bytes().as_slice());
        put_u32(buf, self.vout);
        assert(buf@ =~= old(buf)@ + self@.encoding());
    }
}

/// One input of a transaction.
#[derive(Debug)]
pub struct TxInput {
    pub previous_output: OutPoint,
    pub signature_script: Vec<u8>,
    pub sequence: u32,
}

impl View for TxInput {
    type V = TxInputView;

    open spec fn view(&self) -> TxInputView {
        TxInputView {
            previous_output: self.previous_output@,
            signature_script: self.signature_script@,
            sequence: self.sequence,
        }
    }
}

impl Clone for TxInput {
    fn clone(&self) -> (copy: Self)
        ensures
            copy@ == self@,
    {
        TxInput {
            previous_output: self.previous_output.clone(),
            signature_script: self.signature_script.clone(),
            sequence: self.sequence,
        }
    }
}

impl TxInput {
    /// Appends the canonical encoding.
    pub fn encode_into(&self, buf: &mut Vec<u8>)
        ensures
            final(buf)@ == old(buf)@ + self@.encoding(),
    {
        self.previous_output.encode_into(buf);
        put_var_bytes(buf, self.signature_script.as_slice());
        put_u32(buf, self.sequence);
        assert(buf@ =~= old(buf)@ + self@.encoding());
    }

    /// Appends the encoding with the signature script left empty.
    pub fn encode_unsigned_into(&self, buf: &mut Vec<u8>)
        ensures
            final(buf)@ == old(buf)@ + self@.unsigned_encoding(),
    {
        self.previous_output.encode_into(buf);
        put_u32(buf, 0);
        put_u32(buf, self.sequence);
        assert(buf@ =~= old(buf)@ + self@.unsigned_encoding());
    }
}

/// One output of a transaction.
#[derive(Debug)]
pub struct TxOutput {
    pub value: u64,
    pub script_pubkey: Vec<u8>,
}

impl View for TxOutput {
    type V = TxOutputView;

    open spec fn view(&self) -> TxOutputView {
        TxOutputView { value: self.value, script_pubkey: self.script_pubkey@ }
    }
}

impl Clone for TxOutput {
    fn clone(&self) -> (copy: Self)
        ensures
            copy@ == self@,
    {
        TxOutput { value: self.value, script_pubkey: self.script_pubkey.clone() }
    }
}

impl TxOutput {
    /// Appends the canonical encoding.
    pub fn encode_into(&self, buf: &mut Vec<u8>)
        ensures
            final(buf)@ == old(buf)@ + self@.encoding(),
    {
        put_u64(buf, self.value);
        put_var_bytes(buf, self.script_pubkey.as_slice());
        assert(buf@ =~= old(buf)@ + self@.encoding());
    }
}

/// The models of a sequence of inputs.
pub open spec fn inputs_view(inputs: Seq<TxInput>) -> Seq<TxInputView> {
    inputs.map_values(|i: TxInput| i@)
}

/// The models of a sequence of outputs.
pub open spec fn outputs_view(outputs: Seq<TxOutput>) -> Seq<TxOutputView> {
    outputs.map_values(|o: TxOutput| o@)
}

/// A transfer of value from earlier outputs to new ones.
#[derive(Debug)]
pub struct Transaction {
    pub inputs: Vec<TxInput>,
    pub outputs: Vec<TxOutput>,
    pub lock_time: u64,
    pub version: u32,
}

impl View for Transaction {
    type V = TransactionView;

    open spec fn view(&self) -> TransactionView {
        TransactionView {
            version: self.version,
            inputs: inputs_view(self.inputs@),
            outputs: outputs_view(self.outputs@),
            lock_time: self.lock_time,
        }
    }
}

/// A copy of a vector of inputs.
pub fn clone_inputs(inputs: &Vec<TxInput>) -> (copy: Vec<TxInput>)
    ensures
        inputs_view(copy@) == inputs_view(inputs@),
{
    let mut copy: Vec<TxInput> = Vec::new();
    let mut i: usize = 0;
    while i < inputs.len()
        invariant
            i <= inputs@.len(),
            copy@.len() == i,
            forall|j: int| 0 <= j < i ==> copy@[j]@ == inputs@[j]@,
        decreases inputs@.len() - i,
    {
        copy.push(inputs[i].clone());
        i += 1;
    }
    assert(inputs_view(copy@) =~= inputs_view(inputs@));
    copy
}

/// A copy of a vector of outputs.
pub fn clone_outputs(outputs: &Vec<TxOutput>) -> (copy: Vec<TxOutput>)
    ensures
        outputs_view(copy@) == outputs_view(outputs@),
{
    let mut copy: Vec<TxOutput> = Vec::new();
    let mut i: usize = 0;
    while i < outputs.len()
        invariant
            i <= outputs@.len(),
            copy@.len() == i,
            forall|j: int| 0 <= j < i ==> copy@[j]@ == outputs@[j]@,
        decreases outputs@.len() - i,
    {
        copy.push(outputs[i].clone());
        i += 1;
    }
    assert(outputs_view(copy@) =~= outputs_view(outputs@));
    copy
}

impl Clone for Transaction {
    fn clone(&self) -> (copy: Self)
        ensures
            copy@ == self@,
    {
        Transaction {
            inputs: clone_inputs(&self.inputs),
            outputs: clone_outputs(&self.outputs),
            lock_time: self.lock_time,
            version: self.version,
        }
    }
}

/// Unfolds [`encode_inputs`] at the end of a prefix.
pub proof fn lemma_encode_inputs_step(inputs: Seq<TxInputView>, i: int)
    requires
        0 <= i < inputs.len(),
    ensures
        encode_inputs(inputs.take(i + 1)) == encode_inputs(inputs.take(i)) + inputs[i].encoding(),
        encode_unsigned_inputs(inputs.take(i + 1)) == encode_unsigned_inputs(inputs.take(i))
            + inputs[i].unsigned_encoding(),
{
    assert(inputs.take(i + 1).drop_last() =~= inputs.take(i));
}

/// Unfolds [`encode_outputs`] and [`sum_output_values`] at the end of a
/// prefix.
pub proof fn lemma_outputs_step(outputs: Seq<TxOutputView>, i: int)
    requires
        0 <= i < outputs.len(),
    ensures
        encode_outputs(outputs.take(i + 1)) == encode_outputs(outputs.take(i))
            + outputs[i].encoding(),
        sum_output_values(outputs.take(i + 1)) == sum_output_values(outputs.take(i))
            + outputs[i].value,
{
    assert(outputs.take(i + 1).drop_last() =~= outputs.take(i));
}

/// The sum of output values is never negative and grows with the prefix.
pub proof fn lemma_sum_output_values_monotone(outputs: Seq<TxOutputView>, i: int, j: int)
    requires
        0 <= i <= j <= outputs.len(),
    ensures
        0 <= sum_output_values(outputs.take(i)) <= sum_output_values(outputs.take(j)),
    decreases j - i, i,
{
    if i < j {
        lemma_sum_output_values_monotone(outputs, i, j - 1);
        lemma_outputs_step(outputs, j - 1);
    } else if i > 0 {
        lemma_sum_output_values_monotone(outputs, i - 1, i - 1);
        lemma_outputs_step(outputs, i - 1);
    }
}

impl Transaction {
    /// An empty transaction of version 1.
    pub fn new() -> (tx: Self)
        ensures
            tx@ == (TransactionView {
                version: 1,
                inputs: Seq::empty(),
                outputs: Seq::empty(),
                lock_time: 0,
            }),
    {
        let tx = Transaction { inputs: Vec::new(), outputs: Vec::new(), lock_time: 0, version: 1 };
        assert(tx@.inputs =~= Seq::empty());
        assert(tx@.outputs =~= Seq::empty());
        tx
    }

    /// The coinbase that pays `value` to `address`: one input that names
    /// the null sentinel and carries `message` as its script, one output.
    pub fn new_coinbase(address: String, value: u64, message: String) -> (tx: Self)
        ensures
            tx@ == (TransactionView {
                version: 1,
                inputs: seq![
                    TxInputView {
                        previous_output: OutPointView { txid: zero_bytes(32), vout: NULL_VOUT },
                        signature_script: vstd::utf8::encode_utf8(message@),
                        sequence: FINAL_SEQUENCE,
                    },
                ],
                outputs: seq![
                    TxOutputView { value, script_pubkey: script_for_address(address@) },
                ],
                lock_time: 0,
            }),
            tx@.is_coinbase(),
    {
        let script_pubkey = Self::address_to_script_pubkey(address.as_str());
        let coinbase_input = TxInput {
            previous_output: OutPoint { txid: Hash256::zero(), vout: NULL_VOUT },
            signature_script: vstd::slice::slice_to_vec(message.as_str().as_bytes()),
            sequence: FINAL_SEQUENCE,
        };
        let output = TxOutput { value, script_pubkey };
        let mut inputs: Vec<TxInput> = Vec::new();
        inputs.push(coinbase_input);
        let mut outputs: Vec<TxOutput> = Vec::new();
        outputs.push(output);
        let tx = Transaction { inputs, outputs, lock_time: 0, version: 1 };
        assert(tx@.inputs =~= seq![
            TxInputView {
                previous_output: OutPointView { txid: zero_bytes(32), vout: NULL_VOUT },
                signature_script: vstd::utf8::encode_utf8(message@),
                sequence: FINAL_SEQUENCE,
            },
        ]);
        assert(tx@.outputs =~= seq![
            TxOutputView { value, script_pubkey: script_for_address(address@) },
        ]);
        tx
    }

    /// Appends an input that spends `outpoint`.
    pub fn add_input(&mut self, outpoint: OutPoint, signature_script: Vec<u8>)
        ensures
            final(self)@ == (TransactionView {
                inputs: old(self)@.inputs.push(
                    TxInputView {
                        previous_output: outpoint@,
                        signature_script: signature_script@,
                        sequence: FINAL_SEQUENCE,
                    },
                ),
                ..old(self)@
            }),
    {
        let input = TxInput { previous_output: outpoint, signature_script, sequence: FINAL_SEQUENCE };
        self.inputs.push(input);
        assert(self@.inputs =~= old(self)@.inputs.push(input@));
    }

    /// Appends an output that pays `value` to `address`.
    pub fn add_output(&mut self, value: u64, address: &str)
        ensures
            final(self)@ == (TransactionView {
                outputs: old(self)@.outputs.push(
                    TxOutputView { value, script_pubkey: script_for_address(address@) },
                ),
                ..old(self)@
            }),
    {
        let script_pubkey = Self::address_to_script_pubkey(address);
        let output = TxOutput { value, script_pubkey };
        self.outputs.push(output);
        assert(self@.outputs =~= old(self)@.outputs.push(output@));
    }

    /// Whether this is a coinbase: exactly one input, naming the null
    /// sentinel.
    pub fn is_coinbase(&self) -> (coinbase: bool)
        ensures
            coinbase == self@.is_coinbase(),
    {
        self.inputs.len() == 1 && self.inputs[0].previous_output.is_null()
    }

    /// The sum of the output values, held at `u64::MAX` where it would
    /// pass it.
    pub fn total_output_value(&self) -> (value: u64)
        ensures
            value == if self@.total_output_value() <= u64::MAX {
                self@.total_output_value()
            } else {
                u64::MAX as int
            },
    {
        let mut total: u64 = 0;
        let mut i: usize = 0;
        let ghost outputs = self@.outputs;
        while i < self.outputs.len()
            invariant
                i <= self.outputs@.len(),
                outputs == self@.outputs,
                outputs.len() == self.outputs@.len(),
                total == if sum_output_values(outputs.take(i as int)) <= u64::MAX {
                    sum_output_values(outputs.take(i as int))
                } else {
                    u64::MAX as int
                },
            decreases self.outputs@.len() - i,
        {
            proof {
                lemma_outputs_step(outputs, i as int);
                lemma_sum_output_values_monotone(outputs, i as int, i as int);
            }
            total = total.saturating_add(self.outputs[i].value);
            i += 1;
        }
        assert(outputs.take(i as int) =~= outputs);
        total
    }

    /// The exact sum of the output values, or nothing where it does not fit
    /// in 64 bits.
    pub fn checked_total_output_value(&self) -> (value: Option<u64>)
        ensures
            value is Some <==> self@.total_output_value() <= u64::MAX,
            value matches Some(v) ==> v == self@.total_output_value(),
    {
        let mut total: u64 = 0;
        let mut i: usize = 0;
        let ghost outputs = self@.outputs;
        while i < self.outputs.len()
            invariant
                i <= self.outputs@.len(),
                outputs == self@.outputs,
                outputs.len() == self.outputs@.len(),
                total == sum_output_values(outputs.take(i as int)),
            decreases self.outputs@.len() - i,
        {
            proof {
                lemma_outputs_step(outputs, i as int);
                lemma_sum_output_values_monotone(outputs, i as int + 1, outputs.len() as int);
                assert(outputs.take(outputs.len() as int) =~= outputs);
            }
            match total.checked_add(self.outputs[i].value) {
                Some(next) => {
                    total = next;
                },
                None => {
                    return None;
                },
            }
            i += 1;
        }
        assert(outputs.take(i as int) =~= outputs);
        Some(total)
    }

    /// The exact sum of the output values.
    pub fn wide_total_output_value(&self) -> (value: u128)
        ensures
            value == self@.total_output_value(),
    {
        let mut total: u128 = 0;
        let mut i: usize = 0;
        let ghost outputs = self@.outputs;
        while i < self.outputs.len()
            invariant
                i <= self.outputs@.len(),
                outputs == self@.outputs,
                outputs.len() == self.outputs@.len(),
                total == sum_output_values(outputs.take(i as int)),
                total <= i * 0x1_0000_0000_0000_0000,
            decreases self.outputs@.len() - i,
        {
            proof {
                lemma_outputs_step(outputs, i as int);
            }
            total = total + self.outputs[i].value as u128;
            i += 1;
        }
        assert(outputs.take(i as int) =~= outputs);
        total
    }

    /// The canonical encoding.
    pub fn encode(&self) -> (bytes: Vec<u8>)
        ensures
            bytes@ == self@.encoding(),
    {
        let mut buf: Vec<u8> = Vec::new();
        self.encode_into(&mut buf);
        assert(buf@ =~= self@.encoding());
        buf
    }

    /// Appends the canonical encoding.
    pub fn encode_into(&self, buf: &mut Vec<u8>)
        ensures
            final(buf)@ == old(buf)@ + self@.encoding(),
    {
        let ghost inputs = self@.inputs;
        let ghost outputs = self@.outputs;
        put_u32(buf, self.version);
        put_len(buf, self.inputs.len());
        let ghost head = buf@;
        let mut i: usize = 0;
        while i < self.inputs.len()
            invariant
                i <= self.inputs@.len(),
                inputs == self@.inputs,
                inputs.len() == self.inputs@.len(),
                buf@ == head + encode_inputs(inputs.take(i as int)),
            decreases self.inputs@.len() - i,
        {
            proof {
                lemma_encode_inputs_step(inputs, i as int);
            }
            self.inputs[i].encode_into(buf);
            assert(buf@ =~= head + encode_inputs(inputs.take(i as int + 1)));
            i += 1;
        }
        assert(inputs.take(i as int) =~= inputs);
        put_len(buf, self.outputs.len());
        let ghost middle = buf@;
        let mut k: usize = 0;
        while k < self.outputs.len()
            invariant
                k <= self.outputs@.len(),
                outputs == self@.outputs,
                outputs.len() == self.outputs@.len(),
                buf@ == middle + encode_outputs(outputs.take(k as int)),
            decreases self.outputs@.len() - k,
        {
            proof {
                lemma_outputs_step(outputs, k as int);
            }
            self.outputs[k].encode_into(buf);
            assert(buf@ =~= middle + encode_outputs(outputs.take(k as int + 1)));
            k += 1;
        }
        assert(outputs.take(k as int) =~= outputs);
        put_u64(buf, self.lock_time);
        assert(buf@ =~= old(buf)@ + self@.encoding());
    }

    /// The size of the canonical encoding in bytes.
    pub fn size(&self) -> (n: usize)
        ensures
            n == self@.encoding().len(),
    {
        self.encode().len()
    }

    /// The hash that a signature over any input commits to: all inputs
    /// with their scripts left empty, all outputs, and the hash type `1`.
    /// It is the same for every input index.
    pub fn get_signature_hash(&self, input_index: usize) -> (h: Hash256)
        ensures
            h@ == sha256_digest(self@.signing_encoding()),
    {
        let ghost inputs = self@.inputs;
        let ghost outputs = self@.outputs;
        let mut buf: Vec<u8> = Vec::new();
        put_u32(&mut buf, self.version);
        put_len(&mut buf, self.inputs.len());
        let ghost head = buf@;
        let mut i: usize = 0;
        while i < self.inputs.len()
            invariant
                i <= self.inputs@.len(),
                inputs == self@.inputs,
                inputs.len() == self.inputs@.len(),
                buf@ == head + encode_unsigned_inputs(inputs.take(i as int)),
            decreases self.inputs@.len() - i,
        {
            proof {
                lemma_encode_inputs_step(inputs, i as int);
            }
            self.inputs[i].encode_unsigned_into(&mut buf);
            assert(buf@ =~= head + encode_unsigned_inputs(inputs.take(i as int + 1)));
            i += 1;
        }
        assert(inputs.take(i as int) =~= inputs);
        put_len(&mut buf, self.outputs.len());
        let ghost middle = buf@;
        let mut k: usize = 0;
        while k < self.outputs.len()
            invariant
                k <= self.outputs@.len(),
                outputs == self@.outputs,
                outputs.len() == self.outputs@.len(),
                buf@ == middle + encode_outputs(outputs.take(k as int)),
            decreases self.outputs@.len() - k,
        {
            proof {
                lemma_outputs_step(outputs, k as int);
            }
            self.outputs[k].encode_into(&mut buf);
            assert(buf@ =~= middle + encode_outputs(outputs.take(k as int + 1)));
            k += 1;
        }
        assert(outputs.take(k as int) =~= outputs);
        put_u64(&mut buf, self.lock_time);
        put_u32(&mut buf, 1);
        assert(buf@ =~= self@.signing_encoding());
        Hash256::hash(buf.as_slice())
    }

    /// Whether the signature at the end of the script of input
    /// `input_index` verifies under `public_key` over the signature hash.
    /// A script of fewer than 64 bytes holds no signature; its last 64
    /// bytes are taken as one.
    pub fn verify_signature(&self, input_index: usize, public_key: &crate::crypto::keys::PublicKey) -> (out:
        Result<bool, crate::error::QtcError>)
        ensures
            out matches Ok(valid) ==> input_index < self@.inputs.len() && valid == (
            self@.inputs[input_index as int].signature_script.len() >= 64
                && crate::crypto::signatures::ecdsa_accepts(
                public_key@,
                sha256_digest(self@.signing_encoding()),
                script_signature(self@.inputs[input_index as int].signature_script),
            )),
            out is Err <==> input_index >= self@.inputs.len() || (
            self@.inputs[input_index as int].signature_script.len() >= 64
                && !crate::crypto::signatures::is_compact_signature(
                script_signature(self@.inputs[input_index as int].signature_script),
            )),
            out matches Err(e) ==> e == if input_index >= self@.inputs.len() {
                crate::error::QtcError::Transaction(
                    crate::error::TxReason::InvalidInputIndex { index: input_index },
                )
            } else {
                crate::error::QtcError::Crypto(crate::error::CryptoReason::InvalidSignature)
            },
    {
        if input_index >= self.inputs.len() {
            return Err(
                crate::error::QtcError::Transaction(
                    crate::error::TxReason::InvalidInputIndex { index: input_index },
                ),
            );
        }
        let input = &self.inputs[input_index];
        if input.signature_script.len() < 64 {
            return Ok(false);
        }
        let start = input.signature_script.len() - 64;
        let signature_bytes = vstd::slice::slice_subrange(
            input.signature_script.as_slice(),
            start,
            input.signature_script.len(),
        );
        let signature = match crate::crypto::signatures::Signature::from_bytes(signature_bytes) {
            Err(e) => {
                return Err(e);
            },
            Ok(s) => s,
        };
        assert(signature@.compact() =~= script_signature(
            self@.inputs[input_index as int].signature_script,
        ));
        let message_hash = self.get_signature_hash(input_index);
        public_key.verify(&message_hash, &signature)
    }

    /// The script that pays to an address text.
    pub fn address_to_script_pubkey(address: &str) -> (script: Vec<u8>)
        ensures
            script@ == script_for_address(address@),
    {
        let mut script: Vec<u8> = Vec::new();
        script.push(OP_DUP);
        script.push(OP_HASH160);
        script.push(20);
        let digest = Hash256::hash(address.as_bytes());
        let bytes = digest.as_bytes();
        let mut i: usize = 0;
        while i < 20
            invariant
                i <= 20,
                bytes@ == digest@,
                digest@ == sha256_digest(vstd::utf8::encode_utf8(address@)),
                script@ == seq![OP_DUP, OP_HASH160, 20u8] + digest@.subrange(0, i as int),
            decreases 20 - i,
        {
            script.push(bytes[i]);
            assert(script@ =~= seq![OP_DUP, OP_HASH160, 20u8] + digest@.subrange(0, i as int + 1));
            i += 1;
        }
        script.push(OP_EQUALVERIFY);
        script.push(OP_CHECKSIG);
        assert(script@ =~= script_for_address(address@));
        script
    }
}

impl Hashable for Transaction {
    open spec fn hash_input(&self) -> Seq<u8> {
        self@.encoding()
    }

    fn hash(&self) -> (h: Hash256) {
        let bytes = self.encode();
        Hash256::hash(bytes.as_slice())
    }
}

} // verus!
