//! Reading the canonical encoding back: parsers that are the inverse of
//! the encoders, and the proof that they are.

use crate::chain::block::{
    encode_transactions, transactions_view, Block, BlockHeader, BlockHeaderView, BlockView,
};
use crate::chain::codec::{encode_bytes, len_prefix, u128_le, u32_le, u64_le};
use crate::chain::transaction::{
    encode_inputs, encode_outputs, inputs_view, outputs_view, OutPoint, OutPointView,
    Transaction, TransactionView, TxInput, TxInputView, TxOutput, TxOutputView,
};
use crate::chain::blockchain::{ChainState, ChainStateView};
use crate::chain::codec::{encode_bool, put_bool, put_bytes, put_u128, put_u32, put_u64, put_var_bytes};
use crate::chain::utxo::{UtxoEntry, UtxoEntryView};
use crate::crypto::hash::{array32_from, Hash256};
use vstd::bytes::*;
use vstd::prelude::*;
use vstd::utf8::{decode_utf8, encode_utf8, valid_utf8};

verus! {

/// The `n` bytes of `b` from `at`, and the position after them.
pub open spec fn parse_fixed(b: Seq<u8>, at: int, n: int) -> Option<(Seq<u8>, int)> {
    if 0 <= at && 0 <= n && at + n <= b.len() {
        Some((b.subrange(at, at + n), at + n))
    } else {
        None
    }
}

/// A little-endian `u32` at `at`.
pub open spec fn parse_u32(b: Seq<u8>, at: int) -> Option<(u32, int)> {
    match parse_fixed(b, at, 4) {
        Some((s, p)) => Some((spec_u32_from_le_bytes(s), p)),
        None => None,
    }
}

/// A little-endian `u64` at `at`.
pub open spec fn parse_u64(b: Seq<u8>, at: int) -> Option<(u64, int)> {
    match parse_fixed(b, at, 8) {
        Some((s, p)) => Some((spec_u64_from_le_bytes(s), p)),
        None => None,
    }
}

/// A little-endian `u128` at `at`.
pub open spec fn parse_u128(b: Seq<u8>, at: int) -> Option<(u128, int)> {
    match parse_fixed(b, at, 16) {
        Some((s, p)) => Some((spec_u128_from_le_bytes(s), p)),
        None => None,
    }
}

/// A variable-length byte field at `at`.
pub open spec fn parse_var_bytes(b: Seq<u8>, at: int) -> Option<(Seq<u8>, int)> {
    match parse_u32(b, at) {
        Some((n, p)) => parse_fixed(b, p, n as int),
        None => None,
    }
}

/// A flag at `at`: one byte that is 0 or 1.
pub open spec fn parse_bool(b: Seq<u8>, at: int) -> Option<(bool, int)> {
    match parse_fixed(b, at, 1) {
        Some((s, p)) => if s[0] == 0 {
            Some((false, p))
        } else if s[0] == 1 {
            Some((true, p))
        } else {
            None
        },
        None => None,
    }
}

/// An outpoint at `at`.
pub open spec fn parse_outpoint(b: Seq<u8>, at: int) -> Option<(OutPointView, int)> {
    match parse_fixed(b, at, 32) {
        Some((txid, p)) => match parse_u32(b, p) {
            Some((vout, q)) => Some((OutPointView { txid, vout }, q)),
            None => None,
        },
        None => None,
    }
}

/// An input at `at`.
pub open spec fn parse_input(b: Seq<u8>, at: int) -> Option<(TxInputView, int)> {
    match parse_outpoint(b, at) {
        Some((previous_output, p)) => match parse_var_bytes(b, p) {
            Some((signature_script, q)) => match parse_u32(b, q) {
                Some((sequence, r)) => Some(
                    (TxInputView { previous_output, signature_script, sequence }, r),
                ),
                None => None,
            },
            None => None,
        },
        None => None,
    }
}

/// An output at `at`.
pub open spec fn parse_output(b: Seq<u8>, at: int) -> Option<(TxOutputView, int)> {
    match parse_u64(b, at) {
        Some((value, p)) => match parse_var_bytes(b, p) {
            Some((script_pubkey, q)) => Some((TxOutputView { value, script_pubkey }, q)),
            None => None,
        },
        None => None,
    }
}

/// `count` inputs from `at`.
pub open spec fn parse_inputs(b: Seq<u8>, at: int, count: nat) -> Option<(Seq<TxInputView>, int)>
    decreases count,
{
    if count == 0 {
        Some((Seq::empty(), at))
    } else {
        match parse_inputs(b, at, (count - 1) as nat) {
            Some((rest, p)) => match parse_input(b, p) {
                Some((input, q)) => Some((rest.push(input), q)),
                None => None,
            },
            None => None,
        }
    }
}

/// `count` outputs from `at`.
pub open spec fn parse_outputs(b: Seq<u8>, at: int, count: nat) -> Option<(Seq<TxOutputView>, int)>
    decreases count,
{
    if count == 0 {
        Some((Seq::empty(), at))
    } else {
        match parse_outputs(b, at, (count - 1) as nat) {
            Some((rest, p)) => match parse_output(b, p) {
                Some((output, q)) => Some((rest.push(output), q)),
                None => None,
            },
            None => None,
        }
    }
}

/// A transaction at `at`.
pub open spec fn parse_transaction(b: Seq<u8>, at: int) -> Option<(TransactionView, int)> {
    match parse_u32(b, at) {
        Some((version, p1)) => match parse_u32(b, p1) {
            Some((input_count, p2)) => match parse_inputs(b, p2, input_count as nat) {
                Some((inputs, p3)) => match parse_u32(b, p3) {
                    Some((output_count, p4)) => match parse_outputs(b, p4, output_count as nat) {
                        Some((outputs, p5)) => match parse_u64(b, p5) {
                            Some((lock_time, p6)) => Some(
                                (TransactionView { version, inputs, outputs, lock_time }, p6),
                            ),
                            None => None,
                        },
                        None => None,
                    },
                    None => None,
                },
                None => None,
            },
            None => None,
        },
        None => None,
    }
}

/// `count` transactions from `at`.
pub open spec fn parse_transactions(b: Seq<u8>, at: int, count: nat) -> Option<
    (Seq<TransactionView>, int),
>
    decreases count,
{
    if count == 0 {
        Some((Seq::empty(), at))
    } else {
        match parse_transactions(b, at, (count - 1) as nat) {
            Some((rest, p)) => match parse_transaction(b, p) {
                Some((tx, q)) => Some((rest.push(tx), q)),
                None => None,
            },
            None => None,
        }
    }
}

/// A block header at `at`.
pub open spec fn parse_header(b: Seq<u8>, at: int) -> Option<(BlockHeaderView, int)> {
    match parse_fixed(b, at, 32) {
        Some((previous_hash, p1)) => match parse_fixed(b, p1, 32) {
            Some((merkle_root, p2)) => match parse_u64(b, p2) {
                Some((timestamp, p3)) => match parse_u32(b, p3) {
                    Some((difficulty, p4)) => match parse_u64(b, p4) {
                        Some((nonce, p5)) => match parse_u64(b, p5) {
                            Some((height, p6)) => Some(
                                (
                                    BlockHeaderView {
                                        previous_hash,
                                        merkle_root,
                                        timestamp,
                                        difficulty,
                                        nonce,
                                        height,
                                    },
                                    p6,
                                ),
                            ),
                            None => None,
                        },
                        None => None,
                    },
                    None => None,
                },
                None => None,
            },
            None => None,
        },
        None => None,
    }
}

/// A block at `at`.
pub open spec fn parse_block(b: Seq<u8>, at: int) -> Option<(BlockView, int)> {
    match parse_header(b, at) {
        Some((header, p1)) => match parse_u32(b, p1) {
            Some((count, p2)) => match parse_transactions(b, p2, count as nat) {
                Some((transactions, p3)) => Some((BlockView { header, transactions }, p3)),
                None => None,
            },
            None => None,
        },
        None => None,
    }
}

/// The transaction that `b` is the whole encoding of, if it is one.
pub open spec fn decode_transaction(b: Seq<u8>) -> Option<TransactionView> {
    match parse_transaction(b, 0) {
        Some((tx, end)) => if end == b.len() {
            Some(tx)
        } else {
            None
        },
        None => None,
    }
}

/// The header that `b` is the whole encoding of, if it is one.
pub open spec fn decode_header(b: Seq<u8>) -> Option<BlockHeaderView> {
    match parse_header(b, 0) {
        Some((header, end)) => if end == b.len() {
            Some(header)
        } else {
            None
        },
        None => None,
    }
}

/// The block that `b` is the whole encoding of, if it is one.
pub open spec fn decode_block(b: Seq<u8>) -> Option<BlockView> {
    match parse_block(b, 0) {
        Some((block, end)) => if end == b.len() {
            Some(block)
        } else {
            None
        },
        None => None,
    }
}

/// Whether the lengths of a byte field or sequence fit its prefix.
pub open spec fn fits_prefix(n: nat) -> bool {
    n < 0x1_0000_0000
}

impl OutPointView {
    /// An outpoint can be encoded and read back where its transaction
    /// hash has 32 bytes.
    pub open spec fn encodable(self) -> bool {
        self.txid.len() == 32
    }
}

impl TxInputView {
    /// An input can be encoded and read back where its outpoint can and
    /// the length of its script fits the prefix.
    pub open spec fn encodable(self) -> bool {
        self.previous_output.encodable() && fits_prefix(self.signature_script.len())
    }
}

impl TxOutputView {
    /// An output can be encoded and read back where the length of its
    /// script fits the prefix.
    pub open spec fn encodable(self) -> bool {
        fits_prefix(self.script_pubkey.len())
    }
}

impl TransactionView {
    /// A transaction can be encoded and read back where its inputs and
    /// outputs can and their numbers fit the prefix.
    pub open spec fn encodable(self) -> bool {
        &&& fits_prefix(self.inputs.len())
        &&& fits_prefix(self.outputs.len())
        &&& forall|i: int| 0 <= i < self.inputs.len() ==> (#[trigger] self.inputs[i]).encodable()
        &&& forall|i: int| 0 <= i < self.outputs.len() ==> (#[trigger] self.outputs[i]).encodable()
    }
}

impl BlockHeaderView {
    /// A header can be encoded and read back where its hashes have 32
    /// bytes.
    pub open spec fn encodable(self) -> bool {
        self.previous_hash.len() == 32 && self.merkle_root.len() == 32
    }
}

impl BlockView {
    /// A block can be encoded and read back where its header and
    /// transactions can and their number fits the prefix.
    pub open spec fn encodable(self) -> bool {
        &&& self.header.encodable()
        &&& fits_prefix(self.transactions.len())
        &&& forall|i: int|
            0 <= i < self.transactions.len() ==> (#[trigger] self.transactions[i]).encodable()
    }
}

/// Whether `b` holds the bytes `enc` from `at`.
pub open spec fn holds_at(b: Seq<u8>, at: int, enc: Seq<u8>) -> bool {
    0 <= at && at + enc.len() <= b.len() && b.subrange(at, at + enc.len()) == enc
}

/// Where `b` holds two strings one after the other, it holds each.
pub proof fn lemma_holds_split(b: Seq<u8>, at: int, x: Seq<u8>, y: Seq<u8>)
    requires
        holds_at(b, at, x + y),
    ensures
        holds_at(b, at, x),
        holds_at(b, at + x.len(), y),
{
    let whole = b.subrange(at, at + (x + y).len());
    assert(b.subrange(at, at + x.len()) =~= whole.subrange(0, x.len() as int));
    assert(whole.subrange(0, x.len() as int) =~= x);
    assert(b.subrange(at + x.len(), at + x.len() + y.len()) =~= whole.subrange(
        x.len() as int,
        (x + y).len() as int,
    ));
    assert(whole.subrange(x.len() as int, (x + y).len() as int) =~= y);
}

/// A `u32` is read back from its encoding.
pub proof fn lemma_read_u32(b: Seq<u8>, at: int, x: u32)
    requires
        holds_at(b, at, u32_le(x)),
    ensures
        parse_u32(b, at) == Some((x, at + 4)),
{
    lemma_auto_spec_u32_to_from_le_bytes();
}

/// A `u64` is read back from its encoding.
pub proof fn lemma_read_u64(b: Seq<u8>, at: int, x: u64)
    requires
        holds_at(b, at, u64_le(x)),
    ensures
        parse_u64(b, at) == Some((x, at + 8)),
{
    lemma_auto_spec_u64_to_from_le_bytes();
}

/// A `u128` is read back from its encoding.
pub proof fn lemma_read_u128(b: Seq<u8>, at: int, x: u128)
    requires
        holds_at(b, at, u128_le(x)),
    ensures
        parse_u128(b, at) == Some((x, at + 16)),
{
    lemma_auto_spec_u128_to_from_le_bytes();
}

/// A length that fits the prefix is read back from it.
pub proof fn lemma_read_len(b: Seq<u8>, at: int, n: nat)
    requires
        fits_prefix(n),
        holds_at(b, at, len_prefix(n)),
    ensures
        parse_u32(b, at) == Some((n as u32, at + 4)),
{
    lemma_auto_spec_u32_to_from_le_bytes();
}

/// A byte field whose length fits the prefix is read back from its
/// encoding.
pub proof fn lemma_read_var_bytes(b: Seq<u8>, at: int, data: Seq<u8>)
    requires
        fits_prefix(data.len()),
        holds_at(b, at, encode_bytes(data)),
    ensures
        parse_var_bytes(b, at) == Some((data, at + encode_bytes(data).len())),
        encode_bytes(data).len() == 4 + data.len(),
{
    lemma_auto_spec_u32_to_from_le_bytes();
    lemma_holds_split(b, at, len_prefix(data.len()), data);
    lemma_read_len(b, at, data.len());
}

/// An outpoint is read back from its encoding.
pub proof fn lemma_read_outpoint(b: Seq<u8>, at: int, point: OutPointView)
    requires
        point.encodable(),
        holds_at(b, at, point.encoding()),
    ensures
        parse_outpoint(b, at) == Some((point, at + 36)),
        point.encoding().len() == 36,
{
    lemma_auto_spec_u32_to_from_le_bytes();
    lemma_holds_split(b, at, point.txid, u32_le(point.vout));
    lemma_read_u32(b, at + 32, point.vout);
}

/// An input is read back from its encoding.
pub proof fn lemma_read_input(b: Seq<u8>, at: int, input: TxInputView)
    requires
        input.encodable(),
        holds_at(b, at, input.encoding()),
    ensures
        parse_input(b, at) == Some((input, at + input.encoding().len())),
{
    lemma_auto_spec_u32_to_from_le_bytes();
    let a = input.previous_output.encoding();
    let s = encode_bytes(input.signature_script);
    let q = u32_le(input.sequence);
    assert(input.encoding() == (a + s) + q);
    lemma_holds_split(b, at, a + s, q);
    lemma_holds_split(b, at, a, s);
    lemma_read_outpoint(b, at, input.previous_output);
    lemma_read_var_bytes(b, at + 36, input.signature_script);
    lemma_read_u32(b, at + 36 + s.len(), input.sequence);
}

/// An output is read back from its encoding.
pub proof fn lemma_read_output(b: Seq<u8>, at: int, output: TxOutputView)
    requires
        output.encodable(),
        holds_at(b, at, output.encoding()),
    ensures
        parse_output(b, at) == Some((output, at + output.encoding().len())),
{
    lemma_auto_spec_u64_to_from_le_bytes();
    lemma_holds_split(b, at, u64_le(output.value), encode_bytes(output.script_pubkey));
    lemma_read_u64(b, at, output.value);
    lemma_read_var_bytes(b, at + 8, output.script_pubkey);
}

/// A sequence of inputs is read back from its encoding.
pub proof fn lemma_read_inputs(b: Seq<u8>, at: int, inputs: Seq<TxInputView>)
    requires
        forall|i: int| 0 <= i < inputs.len() ==> (#[trigger] inputs[i]).encodable(),
        holds_at(b, at, encode_inputs(inputs)),
    ensures
        parse_inputs(b, at, inputs.len()) == Some((inputs, at + encode_inputs(inputs).len())),
    decreases inputs.len(),
{
    if inputs.len() == 0 {
        assert(inputs =~= Seq::<TxInputView>::empty());
    } else {
        let rest = inputs.drop_last();
        lemma_holds_split(b, at, encode_inputs(rest), inputs.last().encoding());
        lemma_read_inputs(b, at, rest);
        lemma_read_input(b, at + encode_inputs(rest).len(), inputs.last());
        assert(rest.push(inputs.last()) =~= inputs);
    }
}

/// A sequence of outputs is read back from its encoding.
pub proof fn lemma_read_outputs(b: Seq<u8>, at: int, outputs: Seq<TxOutputView>)
    requires
        forall|i: int| 0 <= i < outputs.len() ==> (#[trigger] outputs[i]).encodable(),
        holds_at(b, at, encode_outputs(outputs)),
    ensures
        parse_outputs(b, at, outputs.len()) == Some(
            (outputs, at + encode_outputs(outputs).len()),
        ),
    decreases outputs.len(),
{
    if outputs.len() == 0 {
        assert(outputs =~= Seq::<TxOutputView>::empty());
    } else {
        let rest = outputs.drop_last();
        lemma_holds_split(b, at, encode_outputs(rest), outputs.last().encoding());
        lemma_read_outputs(b, at, rest);
        lemma_read_output(b, at + encode_outputs(rest).len(), outputs.last());
        assert(rest.push(outputs.last()) =~= outputs);
    }
}

/// A transaction is read back from its encoding.
pub proof fn lemma_read_transaction(b: Seq<u8>, at: int, tx: TransactionView)
    requires
        tx.encodable(),
        holds_at(b, at, tx.encoding()),
    ensures
        parse_transaction(b, at) == Some((tx, at + tx.encoding().len())),
{
    lemma_auto_spec_u32_to_from_le_bytes();
    lemma_auto_spec_u64_to_from_le_bytes();
    let e1 = u32_le(tx.version);
    let e2 = len_prefix(tx.inputs.len());
    let e3 = encode_inputs(tx.inputs);
    let e4 = len_prefix(tx.outputs.len());
    let e5 = encode_outputs(tx.outputs);
    let e6 = u64_le(tx.lock_time);
    assert(tx.encoding() == ((((e1 + e2) + e3) + e4) + e5) + e6);
    lemma_holds_split(b, at, (((e1 + e2) + e3) + e4) + e5, e6);
    lemma_holds_split(b, at, ((e1 + e2) + e3) + e4, e5);
    lemma_holds_split(b, at, (e1 + e2) + e3, e4);
    lemma_holds_split(b, at, e1 + e2, e3);
    lemma_holds_split(b, at, e1, e2);
    lemma_read_u32(b, at, tx.version);
    lemma_read_len(b, at + 4, tx.inputs.len());
    lemma_read_inputs(b, at + 8, tx.inputs);
    lemma_read_len(b, at + 8 + e3.len(), tx.outputs.len());
    lemma_read_outputs(b, at + 12 + e3.len(), tx.outputs);
    lemma_read_u64(b, at + 12 + e3.len() + e5.len(), tx.lock_time);
}

/// A sequence of transactions is read back from its encoding.
pub proof fn lemma_read_transactions(b: Seq<u8>, at: int, txs: Seq<TransactionView>)
    requires
        forall|i: int| 0 <= i < txs.len() ==> (#[trigger] txs[i]).encodable(),
        holds_at(b, at, encode_transactions(txs)),
    ensures
        parse_transactions(b, at, txs.len()) == Some(
            (txs, at + encode_transactions(txs).len()),
        ),
    decreases txs.len(),
{
    if txs.len() == 0 {
        assert(txs =~= Seq::<TransactionView>::empty());
    } else {
        let rest = txs.drop_last();
        lemma_holds_split(b, at, encode_transactions(rest), txs.last().encoding());
        lemma_read_transactions(b, at, rest);
        lemma_read_transaction(b, at + encode_transactions(rest).len(), txs.last());
        assert(rest.push(txs.last()) =~= txs);
    }
}

/// A header is read back from its encoding.
pub proof fn lemma_read_header(b: Seq<u8>, at: int, header: BlockHeaderView)
    requires
        header.encodable(),
        holds_at(b, at, header.encoding()),
    ensures
        parse_header(b, at) == Some((header, at + 92)),
        header.encoding().len() == 92,
{
    lemma_auto_spec_u32_to_from_le_bytes();
    lemma_auto_spec_u64_to_from_le_bytes();
    let e1 = header.previous_hash;
    let e2 = header.merkle_root;
    let e3 = u64_le(header.timestamp);
    let e4 = u32_le(header.difficulty);
    let e5 = u64_le(header.nonce);
    let e6 = u64_le(header.height);
    assert(header.encoding() == ((((e1 + e2) + e3) + e4) + e5) + e6);
    lemma_holds_split(b, at, (((e1 + e2) + e3) + e4) + e5, e6);
    lemma_holds_split(b, at, ((e1 + e2) + e3) + e4, e5);
    lemma_holds_split(b, at, (e1 + e2) + e3, e4);
    lemma_holds_split(b, at, e1 + e2, e3);
    lemma_holds_split(b, at, e1, e2);
    lemma_read_u64(b, at + 64, header.timestamp);
    lemma_read_u32(b, at + 72, header.difficulty);
    lemma_read_u64(b, at + 76, header.nonce);
    lemma_read_u64(b, at + 84, header.height);
}

/// A block is read back from its encoding.
pub proof fn lemma_read_block(b: Seq<u8>, at: int, block: BlockView)
    requires
        block.encodable(),
        holds_at(b, at, block.encoding()),
    ensures
        parse_block(b, at) == Some((block, at + block.encoding().len())),
{
    lemma_auto_spec_u32_to_from_le_bytes();
    let e1 = block.header.encoding();
    let e2 = len_prefix(block.transactions.len());
    let e3 = encode_transactions(block.transactions);
    assert(block.encoding() == (e1 + e2) + e3);
    lemma_holds_split(b, at, e1 + e2, e3);
    lemma_holds_split(b, at, e1, e2);
    lemma_read_header(b, at, block.header);
    lemma_read_len(b, at + 92, block.transactions.len());
    lemma_read_transactions(b, at + 96, block.transactions);
}

/// Decoding the encoding of a transaction gives the transaction.
pub proof fn lemma_transaction_round_trip(tx: TransactionView)
    requires
        tx.encodable(),
    ensures
        decode_transaction(tx.encoding()) == Some(tx),
{
    let b = tx.encoding();
    assert(b.subrange(0, b.len() as int) =~= b);
    lemma_read_transaction(b, 0, tx);
}

/// Decoding the encoding of a header gives the header.
pub proof fn lemma_header_round_trip(header: BlockHeaderView)
    requires
        header.encodable(),
    ensures
        decode_header(header.encoding()) == Some(header),
{
    let b = header.encoding();
    lemma_auto_spec_u32_to_from_le_bytes();
    lemma_auto_spec_u64_to_from_le_bytes();
    assert(b.len() == 92);
    assert(b.subrange(0, b.len() as int) =~= b);
    lemma_read_header(b, 0, header);
}

/// Decoding the encoding of a block gives the block.
pub proof fn lemma_block_round_trip(block: BlockView)
    requires
        block.encodable(),
    ensures
        decode_block(block.encoding()) == Some(block),
{
    let b = block.encoding();
    assert(b.subrange(0, b.len() as int) =~= b);
    lemma_read_block(b, 0, block);
}


impl UtxoEntryView {
    /// The fields in order; the address as a byte field in UTF-8.
    pub open spec fn encoding(self) -> Seq<u8> {
        self.txid + u32_le(self.vout) + u64_le(self.value) + encode_bytes(self.script_pubkey)
            + encode_bytes(encode_utf8(self.address)) + u64_le(self.height) + encode_bool(
            self.is_coinbase,
        )
    }

    /// An entry can be encoded and read back where its transaction hash
    /// has 32 bytes and the lengths of its script and address fit the
    /// prefix.
    pub open spec fn encodable(self) -> bool {
        &&& self.txid.len() == 32
        &&& fits_prefix(self.script_pubkey.len())
        &&& fits_prefix(encode_utf8(self.address).len())
    }
}

impl ChainStateView {
    /// The fields in order.
    pub open spec fn encoding(self) -> Seq<u8> {
        self.tip + u64_le(self.height) + u128_le(self.total_work) + u32_le(self.difficulty)
            + u64_le(self.total_supply)
    }

    /// A chain state can be encoded and read back where its tip has 32
    /// bytes.
    pub open spec fn encodable(self) -> bool {
        self.tip.len() == 32
    }
}

/// An entry of the set of unspent outputs at `at`.
pub open spec fn parse_utxo_entry(b: Seq<u8>, at: int) -> Option<(UtxoEntryView, int)> {
    match parse_fixed(b, at, 32) {
        Some((txid, p1)) => match parse_u32(b, p1) {
            Some((vout, p2)) => match parse_u64(b, p2) {
                Some((value, p3)) => match parse_var_bytes(b, p3) {
                    Some((script_pubkey, p4)) => match parse_var_bytes(b, p4) {
                        Some((address_bytes, p5)) => match parse_u64(b, p5) {
                            Some((height, p6)) => match parse_bool(b, p6) {
                                Some((is_coinbase, p7)) => if valid_utf8(address_bytes) {
                                    Some(
                                        (
                                            UtxoEntryView {
                                                txid,
                                                vout,
                                                value,
                                                script_pubkey,
                                                address: decode_utf8(address_bytes),
                                                height,
                                                is_coinbase,
                                            },
                                            p7,
                                        ),
                                    )
                                } else {
                                    None
                                },
                                None => None,
                            },
                            None => None,
                        },
                        None => None,
                    },
                    None => None,
                },
                None => None,
            },
            None => None,
        },
        None => None,
    }
}

/// A chain state at `at`.
pub open spec fn parse_chain_state(b: Seq<u8>, at: int) -> Option<(ChainStateView, int)> {
    match parse_fixed(b, at, 32) {
        Some((tip, p1)) => match parse_u64(b, p1) {
            Some((height, p2)) => match parse_u128(b, p2) {
                Some((total_work, p3)) => match parse_u32(b, p3) {
                    Some((difficulty, p4)) => match parse_u64(b, p4) {
                        Some((total_supply, p5)) => Some(
                            (
                                ChainStateView { tip, height, total_work, difficulty, total_supply },
                                p5,
                            ),
                        ),
                        None => None,
                    },
                    None => None,
                },
                None => None,
            },
            None => None,
        },
        None => None,
    }
}

/// The entry that `b` is the whole encoding of, if it is one.
pub open spec fn decode_utxo_entry(b: Seq<u8>) -> Option<UtxoEntryView> {
    match parse_utxo_entry(b, 0) {
        Some((entry, end)) => if end == b.len() {
            Some(entry)
        } else {
            None
        },
        None => None,
    }
}

/// The chain state that `b` is the whole encoding of, if it is one.
pub open spec fn decode_chain_state(b: Seq<u8>) -> Option<ChainStateView> {
    match parse_chain_state(b, 0) {
        Some((state, end)) => if end == b.len() {
            Some(state)
        } else {
            None
        },
        None => None,
    }
}

/// Decoding the encoding of an entry gives the entry.
pub proof fn lemma_utxo_entry_round_trip(entry: UtxoEntryView)
    requires
        entry.encodable(),
    ensures
        decode_utxo_entry(entry.encoding()) == Some(entry),
{
    lemma_auto_spec_u32_to_from_le_bytes();
    lemma_auto_spec_u64_to_from_le_bytes();
    vstd::utf8::encode_utf8_valid_utf8(entry.address);
    vstd::utf8::encode_utf8_decode_utf8(entry.address);
    let b = entry.encoding();
    let e1 = entry.txid;
    let e2 = u32_le(entry.vout);
    let e3 = u64_le(entry.value);
    let e4 = encode_bytes(entry.script_pubkey);
    let e5 = encode_bytes(encode_utf8(entry.address));
    let e6 = u64_le(entry.height);
    let e7 = encode_bool(entry.is_coinbase);
    assert(b == (((((e1 + e2) + e3) + e4) + e5) + e6) + e7);
    assert(b.subrange(0, b.len() as int) =~= b);
    lemma_holds_split(b, 0, ((((e1 + e2) + e3) + e4) + e5) + e6, e7);
    lemma_holds_split(b, 0, (((e1 + e2) + e3) + e4) + e5, e6);
    lemma_holds_split(b, 0, ((e1 + e2) + e3) + e4, e5);
    lemma_holds_split(b, 0, (e1 + e2) + e3, e4);
    lemma_holds_split(b, 0, e1 + e2, e3);
    lemma_holds_split(b, 0, e1, e2);
    lemma_read_u32(b, 32, entry.vout);
    lemma_read_u64(b, 36, entry.value);
    lemma_read_var_bytes(b, 44, entry.script_pubkey);
    lemma_read_var_bytes(b, 44 + e4.len() as int, encode_utf8(entry.address));
    lemma_read_u64(b, 44 + e4.len() as int + e5.len() as int, entry.height);
    let last: int = 52 + e4.len() as int + e5.len() as int;
    assert(b.subrange(last, last + 1) == e7);
    assert(e7[0] == if entry.is_coinbase {
        1u8
    } else {
        0u8
    });
}

/// Decoding the encoding of a chain state gives the chain state.
pub proof fn lemma_chain_state_round_trip(state: ChainStateView)
    requires
        state.encodable(),
    ensures
        decode_chain_state(state.encoding()) == Some(state),
{
    lemma_auto_spec_u32_to_from_le_bytes();
    lemma_auto_spec_u64_to_from_le_bytes();
    lemma_auto_spec_u128_to_from_le_bytes();
    let b = state.encoding();
    let e1 = state.tip;
    let e2 = u64_le(state.height);
    let e3 = u128_le(state.total_work);
    let e4 = u32_le(state.difficulty);
    let e5 = u64_le(state.total_supply);
    assert(b == (((e1 + e2) + e3) + e4) + e5);
    assert(b.subrange(0, b.len() as int) =~= b);
    lemma_holds_split(b, 0, ((e1 + e2) + e3) + e4, e5);
    lemma_holds_split(b, 0, (e1 + e2) + e3, e4);
    lemma_holds_split(b, 0, e1 + e2, e3);
    lemma_holds_split(b, 0, e1, e2);
    lemma_read_u64(b, 32, state.height);
    lemma_read_u128(b, 40, state.total_work);
    lemma_read_u32(b, 56, state.difficulty);
    lemma_read_u64(b, 60, state.total_supply);
}

/// Once fewer inputs cannot be read, more cannot.
pub proof fn lemma_parse_inputs_fails(b: Seq<u8>, at: int, n: nat, m: nat)
    requires
        n <= m,
        parse_inputs(b, at, n) is None,
    ensures
        parse_inputs(b, at, m) is None,
    decreases m,
{
    if n < m {
        lemma_parse_inputs_fails(b, at, n, (m - 1) as nat);
    }
}

/// Once fewer outputs cannot be read, more cannot.
pub proof fn lemma_parse_outputs_fails(b: Seq<u8>, at: int, n: nat, m: nat)
    requires
        n <= m,
        parse_outputs(b, at, n) is None,
    ensures
        parse_outputs(b, at, m) is None,
    decreases m,
{
    if n < m {
        lemma_parse_outputs_fails(b, at, n, (m - 1) as nat);
    }
}

/// Once fewer transactions cannot be read, more cannot.
pub proof fn lemma_parse_transactions_fails(b: Seq<u8>, at: int, n: nat, m: nat)
    requires
        n <= m,
        parse_transactions(b, at, n) is None,
    ensures
        parse_transactions(b, at, m) is None,
    decreases m,
{
    if n < m {
        lemma_parse_transactions_fails(b, at, n, (m - 1) as nat);
    }
}

/// `String::from_utf8`: the text that the bytes spell in UTF-8, or nothing
/// where they are not valid UTF-8.
#[verifier::external_body]
pub(crate) fn string_from_utf8(bytes: Vec<u8>) -> (out: Option<String>)
    ensures
        out is Some <==> valid_utf8(bytes@),
        out matches Some(text) ==> text@ == decode_utf8(bytes@),
{
    match String::from_utf8(bytes) {
        Ok(text) => Some(text),
        Err(_) => None,
    }
}

/// Reads `n` bytes from `pos`.
pub fn read_fixed<'a>(data: &'a [u8], pos: usize, n: usize) -> (out: Option<(&'a [u8], usize)>)
    ensures
        out matches Some(r) ==> parse_fixed(data@, pos as int, n as int) == Some(
            (r.0@, r.1 as int),
        ),
        out is None ==> parse_fixed(data@, pos as int, n as int) is None,
{
    if pos > data.len() || n > data.len() - pos {
        return None;
    }
    let part = vstd::slice::slice_subrange(data, pos, pos + n);
    Some((part, pos + n))
}

/// Reads a `u32` from `pos`.
pub fn read_u32(data: &[u8], pos: usize) -> (out: Option<(u32, usize)>)
    ensures
        out == (match parse_u32(data@, pos as int) {
            Some((v, p)) => Some((v, p as usize)),
            None => None,
        }),
        out matches Some(r) ==> parse_u32(data@, pos as int) == Some((r.0, r.1 as int)),
{
    match read_fixed(data, pos, 4) {
        None => None,
        Some((part, next)) => Some((u32_from_le_bytes(part), next)),
    }
}

/// Reads a `u64` from `pos`.
pub fn read_u64(data: &[u8], pos: usize) -> (out: Option<(u64, usize)>)
    ensures
        out == (match parse_u64(data@, pos as int) {
            Some((v, p)) => Some((v, p as usize)),
            None => None,
        }),
        out matches Some(r) ==> parse_u64(data@, pos as int) == Some((r.0, r.1 as int)),
{
    match read_fixed(data, pos, 8) {
        None => None,
        Some((part, next)) => Some((u64_from_le_bytes(part), next)),
    }
}

/// Reads a `u128` from `pos`.
pub fn read_u128(data: &[u8], pos: usize) -> (out: Option<(u128, usize)>)
    ensures
        out == (match parse_u128(data@, pos as int) {
            Some((v, p)) => Some((v, p as usize)),
            None => None,
        }),
        out matches Some(r) ==> parse_u128(data@, pos as int) == Some((r.0, r.1 as int)),
{
    match read_fixed(data, pos, 16) {
        None => None,
        Some((part, next)) => Some((u128_from_le_bytes(part), next)),
    }
}

/// Reads a flag from `pos`.
pub fn read_bool(data: &[u8], pos: usize) -> (out: Option<(bool, usize)>)
    ensures
        out == (match parse_bool(data@, pos as int) {
            Some((v, p)) => Some((v, p as usize)),
            None => None,
        }),
        out matches Some(r) ==> parse_bool(data@, pos as int) == Some((r.0, r.1 as int)),
{
    match read_fixed(data, pos, 1) {
        None => None,
        Some((part, next)) => if part[0] == 0 {
            Some((false, next))
        } else if part[0] == 1 {
            Some((true, next))
        } else {
            None
        },
    }
}

/// Reads a 32-byte hash from `pos`.
pub fn read_hash(data: &[u8], pos: usize) -> (out: Option<(Hash256, usize)>)
    ensures
        out matches Some(r) ==> parse_fixed(data@, pos as int, 32) == Some((r.0@, r.1 as int)),
        out is None ==> parse_fixed(data@, pos as int, 32) is None,
{
    match read_fixed(data, pos, 32) {
        None => None,
        Some((part, next)) => {
            let hash = Hash256::new(array32_from(part));
            assert(hash@ =~= part@);
            Some((hash, next))
        },
    }
}

/// Reads a variable-length byte field from `pos`.
pub fn read_var_bytes(data: &[u8], pos: usize) -> (out: Option<(Vec<u8>, usize)>)
    ensures
        out matches Some(r) ==> parse_var_bytes(data@, pos as int) == Some((r.0@, r.1 as int)),
        out is None ==> parse_var_bytes(data@, pos as int) is None,
{
    let (len, start) = match read_u32(data, pos) {
        None => {
            return None;
        },
        Some(r) => r,
    };
    match read_fixed(data, start, len as usize) {
        None => None,
        Some((part, next)) => Some((vstd::slice::slice_to_vec(part), next)),
    }
}

/// Reads an outpoint from `pos`.
pub fn read_outpoint(data: &[u8], pos: usize) -> (out: Option<(OutPoint, usize)>)
    ensures
        out matches Some(r) ==> parse_outpoint(data@, pos as int) == Some((r.0@, r.1 as int)),
        out is None ==> parse_outpoint(data@, pos as int) is None,
{
    let (txid, p) = match read_hash(data, pos) {
        None => {
            return None;
        },
        Some(r) => r,
    };
    let (vout, q) = match read_u32(data, p) {
        None => {
            return None;
        },
        Some(r) => r,
    };
    Some((OutPoint { txid, vout }, q))
}

/// Reads an input from `pos`.
pub fn read_input(data: &[u8], pos: usize) -> (out: Option<(TxInput, usize)>)
    ensures
        out matches Some(r) ==> parse_input(data@, pos as int) == Some((r.0@, r.1 as int)),
        out is None ==> parse_input(data@, pos as int) is None,
{
    let (previous_output, p) = match read_outpoint(data, pos) {
        None => {
            return None;
        },
        Some(r) => r,
    };
    let (signature_script, q) = match read_var_bytes(data, p) {
        None => {
            return None;
        },
        Some(r) => r,
    };
    let (sequence, r) = match read_u32(data, q) {
        None => {
            return None;
        },
        Some(r) => r,
    };
    Some((TxInput { previous_output, signature_script, sequence }, r))
}

/// Reads an output from `pos`.
pub fn read_output(data: &[u8], pos: usize) -> (out: Option<(TxOutput, usize)>)
    ensures
        out matches Some(r) ==> parse_output(data@, pos as int) == Some((r.0@, r.1 as int)),
        out is None ==> parse_output(data@, pos as int) is None,
{
    let (value, p) = match read_u64(data, pos) {
        None => {
            return None;
        },
        Some(r) => r,
    };
    let (script_pubkey, q) = match read_var_bytes(data, p) {
        None => {
            return None;
        },
        Some(r) => r,
    };
    Some((TxOutput { value, script_pubkey }, q))
}

/// Reads a transaction from `pos`.
#[verifier::loop_isolation(false)]
pub fn read_transaction(data: &[u8], pos: usize) -> (out: Option<(Transaction, usize)>)
    ensures
        out matches Some(r) ==> parse_transaction(data@, pos as int) == Some(
            (r.0@, r.1 as int),
        ),
        out is None ==> parse_transaction(data@, pos as int) is None,
{
    let (version, p1) = match read_u32(data, pos) {
        None => {
            return None;
        },
        Some(r) => r,
    };
    let (input_count, p2) = match read_u32(data, p1) {
        None => {
            return None;
        },
        Some(r) => r,
    };
    let mut inputs: Vec<TxInput> = Vec::new();
    let mut p3: usize = p2;
    let mut i: u32 = 0;
    assert(inputs_view(inputs@) =~= Seq::<TxInputView>::empty());
    while i < input_count
        invariant
            i <= input_count,
            parse_inputs(data@, p2 as int, i as nat) == Some((inputs_view(inputs@), p3 as int)),
        decreases input_count - i,
    {
        match read_input(data, p3) {
            None => {
                proof {
                    lemma_parse_inputs_fails(data@, p2 as int, (i + 1) as nat, input_count as nat);
                }
                return None;
            },
            Some((input, next)) => {
                let ghost before = inputs_view(inputs@);
                inputs.push(input);
                assert(inputs_view(inputs@) =~= before.push(input@));
                p3 = next;
            },
        }
        i += 1;
    }
    let (output_count, p4) = match read_u32(data, p3) {
        None => {
            return None;
        },
        Some(r) => r,
    };
    let mut outputs: Vec<TxOutput> = Vec::new();
    let mut p5: usize = p4;
    let mut k: u32 = 0;
    assert(outputs_view(outputs@) =~= Seq::<TxOutputView>::empty());
    while k < output_count
        invariant
            k <= output_count,
            parse_outputs(data@, p4 as int, k as nat) == Some(
                (outputs_view(outputs@), p5 as int),
            ),
        decreases output_count - k,
    {
        match read_output(data, p5) {
            None => {
                proof {
                    lemma_parse_outputs_fails(
                        data@,
                        p4 as int,
                        (k + 1) as nat,
                        output_count as nat,
                    );
                }
                return None;
            },
            Some((output, next)) => {
                let ghost before = outputs_view(outputs@);
                outputs.push(output);
                assert(outputs_view(outputs@) =~= before.push(output@));
                p5 = next;
            },
        }
        k += 1;
    }
    let (lock_time, p6) = match read_u64(data, p5) {
        None => {
            return None;
        },
        Some(r) => r,
    };
    Some((Transaction { inputs, outputs, lock_time, version }, p6))
}

/// Reads a block header from `pos`.
pub fn read_header(data: &[u8], pos: usize) -> (out: Option<(BlockHeader, usize)>)
    ensures
        out matches Some(r) ==> parse_header(data@, pos as int) == Some((r.0@, r.1 as int)),
        out is None ==> parse_header(data@, pos as int) is None,
{
    let (previous_hash, p1) = match read_hash(data, pos) {
        None => {
            return None;
        },
        Some(r) => r,
    };
    let (merkle_root, p2) = match read_hash(data, p1) {
        None => {
            return None;
        },
        Some(r) => r,
    };
    let (timestamp, p3) = match read_u64(data, p2) {
        None => {
            return None;
        },
        Some(r) => r,
    };
    let (difficulty, p4) = match read_u32(data, p3) {
        None => {
            return None;
        },
        Some(r) => r,
    };
    let (nonce, p5) = match read_u64(data, p4) {
        None => {
            return None;
        },
        Some(r) => r,
    };
    let (height, p6) = match read_u64(data, p5) {
        None => {
            return None;
        },
        Some(r) => r,
    };
    Some((BlockHeader { previous_hash, merkle_root, timestamp, difficulty, nonce, height }, p6))
}

/// Reads a block from `pos`.
#[verifier::loop_isolation(false)]
pub fn read_block(data: &[u8], pos: usize) -> (out: Option<(Block, usize)>)
    ensures
        out matches Some(r) ==> parse_block(data@, pos as int) == Some((r.0@, r.1 as int)),
        out is None ==> parse_block(data@, pos as int) is None,
{
    let (header, p1) = match read_header(data, pos) {
        None => {
            return None;
        },
        Some(r) => r,
    };
    let (count, p2) = match read_u32(data, p1) {
        None => {
            return None;
        },
        Some(r) => r,
    };
    let mut transactions: Vec<Transaction> = Vec::new();
    let mut p3: usize = p2;
    let mut i: u32 = 0;
    assert(transactions_view(transactions@) =~= Seq::<TransactionView>::empty());
    while i < count
        invariant
            i <= count,
            parse_transactions(data@, p2 as int, i as nat) == Some(
                (transactions_view(transactions@), p3 as int),
            ),
        decreases count - i,
    {
        match read_transaction(data, p3) {
            None => {
                proof {
                    lemma_parse_transactions_fails(
                        data@,
                        p2 as int,
                        (i + 1) as nat,
                        count as nat,
                    );
                }
                return None;
            },
            Some((tx, next)) => {
                let ghost before = transactions_view(transactions@);
                transactions.push(tx);
                assert(transactions_view(transactions@) =~= before.push(tx@));
                p3 = next;
            },
        }
        i += 1;
    }
    Some((Block { header, transactions }, p3))
}

impl Transaction {
    /// The transaction that `bytes` is the whole canonical encoding of.
    pub fn decode(bytes: &[u8]) -> (out: Option<Transaction>)
        ensures
            out is Some <==> decode_transaction(bytes@) is Some,
            out matches Some(tx) ==> Some(tx@) == decode_transaction(bytes@),
    {
        match read_transaction(bytes, 0) {
            None => None,
            Some((tx, end)) => if end == bytes.len() {
                Some(tx)
            } else {
                None
            },
        }
    }
}

impl BlockHeader {
    /// The header that `bytes` is the whole canonical encoding of.
    pub fn decode(bytes: &[u8]) -> (out: Option<BlockHeader>)
        ensures
            out is Some <==> decode_header(bytes@) is Some,
            out matches Some(header) ==> Some(header@) == decode_header(bytes@),
    {
        match read_header(bytes, 0) {
            None => None,
            Some((header, end)) => if end == bytes.len() {
                Some(header)
            } else {
                None
            },
        }
    }
}

impl Block {
    /// The block that `bytes` is the whole canonical encoding of.
    pub fn decode(bytes: &[u8]) -> (out: Option<Block>)
        ensures
            out is Some <==> decode_block(bytes@) is Some,
            out matches Some(block) ==> Some(block@) == decode_block(bytes@),
    {
        match read_block(bytes, 0) {
            None => None,
            Some((block, end)) => if end == bytes.len() {
                Some(block)
            } else {
                None
            },
        }
    }
}

impl UtxoEntry {
    /// The canonical encoding.
    pub fn encode(&self) -> (bytes: Vec<u8>)
        ensures
            bytes@ == self@.encoding(),
    {
        let mut buf: Vec<u8> = Vec::new();
        put_bytes(&mut buf, self.txid.as_bytes().as_slice());
        put_u32(&mut buf, self.vout);
        put_u64(&mut buf, self.value);
        put_var_bytes(&mut buf, self.script_pubkey.as_slice());
        put_var_bytes(&mut buf, self.address.as_str().as_bytes());
        put_u64(&mut buf, self.height);
        put_bool(&mut buf, self.is_coinbase);
        assert(buf@ =~= self@.encoding());
        buf
    }

    /// The entry that `bytes` is the whole canonical encoding of.
    pub fn decode(bytes: &[u8]) -> (out: Option<UtxoEntry>)
        ensures
            out is Some <==> decode_utxo_entry(bytes@) is Some,
            out matches Some(entry) ==> Some(entry@) == decode_utxo_entry(bytes@),
    {
        let (txid, p1) = match read_hash(bytes, 0) {
            None => {
                return None;
            },
            Some(r) => r,
        };
        let (vout, p2) = match read_u32(bytes, p1) {
            None => {
                return None;
            },
            Some(r) => r,
        };
        let (value, p3) = match read_u64(bytes, p2) {
            None => {
                return None;
            },
            Some(r) => r,
        };
        let (script_pubkey, p4) = match read_var_bytes(bytes, p3) {
            None => {
                return None;
            },
            Some(r) => r,
        };
        let (address_bytes, p5) = match read_var_bytes(bytes, p4) {
            None => {
                return None;
            },
            Some(r) => r,
        };
        let (height, p6) = match read_u64(bytes, p5) {
            None => {
                return None;
            },
            Some(r) => r,
        };
        let (is_coinbase, p7) = match read_bool(bytes, p6) {
            None => {
                return None;
            },
            Some(r) => r,
        };
        let address = match string_from_utf8(address_bytes) {
            None => {
                return None;
            },
            Some(text) => text,
        };
        if p7 != bytes.len() {
            return None;
        }
        Some(UtxoEntry { txid, vout, value, script_pubkey, address, height, is_coinbase })
    }
}

impl ChainState {
    /// The canonical encoding.
    pub fn encode(&self) -> (bytes: Vec<u8>)
        ensures
            bytes@ == self@.encoding(),
    {
        let mut buf: Vec<u8> = Vec::new();
        put_bytes(&mut buf, self.tip.as_bytes().as_slice());
        put_u64(&mut buf, self.height);
        put_u128(&mut buf, self.total_work);
        put_u32(&mut buf, self.difficulty);
        put_u64(&mut buf, self.total_supply);
        assert(buf@ =~= self@.encoding());
        buf
    }

    /// The chain state that `bytes` is the whole canonical encoding of.
    pub fn decode(bytes: &[u8]) -> (out: Option<ChainState>)
        ensures
            out is Some <==> decode_chain_state(bytes@) is Some,
            out matches Some(state) ==> Some(state@) == decode_chain_state(bytes@),
    {
        let (tip, p1) = match read_hash(bytes, 0) {
            None => {
                return None;
            },
            Some(r) => r,
        };
        let (height, p2) = match read_u64(bytes, p1) {
            None => {
                return None;
            },
            Some(r) => r,
        };
        let (total_work, p3) = match read_u128(bytes, p2) {
            None => {
                return None;
            },
            Some(r) => r,
        };
        let (difficulty, p4) = match read_u32(bytes, p3) {
            None => {
                return None;
            },
            Some(r) => r,
        };
        let (total_supply, p5) = match read_u64(bytes, p4) {
            None => {
                return None;
            },
            Some(r) => r,
        };
        if p5 != bytes.len() {
            return None;
        }
        Some(ChainState { tip, height, total_work, difficulty, total_supply })
    }
}

} // verus!
