//! Validation of blocks and transactions against a snapshot of the chain.
//! Every rule has a place in a fixed order; the verdict names the first
//! rule that fails.

use crate::chain::block::{merkle_root, unix_time_now, Block, BlockView};
use crate::chain::blockchain::{blocks_view, Blockchain};
use crate::chain::transaction::{Transaction, TransactionView};
use crate::chain::utxo::{
    apply_txs, input_value, inputs_available, inputs_known, lemma_inputs_step, lookup,
    tx_applicable, UtxoEntryView, UtxoSet,
};
use crate::consensus::monetary::{
    MonetaryPolicy, DEFAULT_COINBASE_MATURITY, DEFAULT_DUST_THRESHOLD, DEFAULT_INITIAL_REWARD,
    DEFAULT_MIN_FEE, FEE_PER_BYTE,
};
use crate::crypto::hash::{Hash256, Hashable};
use crate::error::{BlockReason, QtcError, TxReason};
use crate::mining::randomx::{meets_difficulty, pow_hash, RandomXMiner};
use vstd::prelude::*;

verus! {

/// The greatest size of an encoded block by default: 1 MiB.
pub const DEFAULT_MAX_BLOCK_SIZE: usize = 1048576;

/// The greatest size of an encoded transaction by default.
pub const DEFAULT_MAX_TRANSACTION_SIZE: usize = 100000;

/// How far a block's time may lie after the reference time, in seconds.
pub const MAX_FUTURE_SECONDS: u64 = 7200;

/// The number of blocks whose median time a new block must pass.
pub const MEDIAN_WINDOW: usize = 11;

/// The lock times below this are heights, those from it on are times.
pub const LOCK_TIME_THRESHOLD: u64 = 500000000;

/// The least `i` below `n` at which `pred` holds, if any.
pub open spec fn first_where(n: int, pred: spec_fn(int) -> bool) -> Option<int>
    decreases n,
{
    if n <= 0 {
        None
    } else {
        match first_where(n - 1, pred) {
            Some(i) => Some(i),
            None => if pred(n - 1) {
                Some(n - 1)
            } else {
                None
            },
        }
    }
}

/// What [`first_where`] finds is the least index at which the predicate
/// holds; it finds nothing only where the predicate holds nowhere.
pub proof fn lemma_first_where(n: int, pred: spec_fn(int) -> bool)
    ensures
        match first_where(n, pred) {
            Some(i) => 0 <= i < n && pred(i) && forall|j: int| 0 <= j < i ==> !#[trigger] pred(j),
            None => forall|j: int| 0 <= j < n ==> !#[trigger] pred(j),
        },
    decreases n,
{
    if n > 0 {
        lemma_first_where(n - 1, pred);
    }
}

/// The least index at which the predicate holds is what [`first_where`]
/// finds.
pub proof fn lemma_first_where_is(n: int, pred: spec_fn(int) -> bool, i: int)
    requires
        0 <= i < n,
        pred(i),
        forall|j: int| 0 <= j < i ==> !#[trigger] pred(j),
    ensures
        first_where(n, pred) == Some(i),
    decreases n,
{
    lemma_first_where(n - 1, pred);
    if i < n - 1 {
        lemma_first_where_is(n - 1, pred, i);
    }
}

/// Where the predicate holds nowhere below `n`, [`first_where`] finds
/// nothing.
pub proof fn lemma_first_where_none(n: int, pred: spec_fn(int) -> bool)
    requires
        forall|j: int| 0 <= j < n ==> !#[trigger] pred(j),
    ensures
        first_where(n, pred) is None,
    decreases n,
{
    if n > 0 {
        lemma_first_where_none(n - 1, pred);
    }
}

/// The number of entries of `times` that are below `t`.
pub open spec fn count_below(times: Seq<u64>, t: u64) -> int
    decreases times.len(),
{
    if times.len() == 0 {
        0
    } else {
        count_below(times.drop_last(), t) + if times.last() < t {
            1int
        } else {
            0int
        }
    }
}

/// Whether `t` lies after the median of `times`: more than half of them
/// are below it.
pub open spec fn after_median(times: Seq<u64>, t: u64) -> bool {
    2 * count_below(times, t) > times.len()
}

/// Whether input `i` of `tx` names the same output as an earlier input.
pub open spec fn repeats_input(tx: TransactionView, i: int) -> bool {
    exists|j: int|
        0 <= j < i && (#[trigger] tx.inputs[j]).previous_output == tx.inputs[i].previous_output
}

/// Whether transaction `i` of `txs` has the hash of an earlier one.
pub open spec fn repeats_txid(txs: Seq<TransactionView>, i: int) -> bool {
    exists|j: int| 0 <= j < i && (#[trigger] txs[j]).txid() == txs[i].txid()
}

/// Why input `i` of `tx` cannot be spent in a block on a tip of height
/// `tip_height`, if it cannot: it names no entry, or a coinbase entry that
/// has not matured.
pub open spec fn input_defect(
    tx: TransactionView,
    utxos: Seq<UtxoEntryView>,
    tip_height: u64,
    i: int,
) -> Option<TxReason> {
    match lookup(utxos, tx.inputs[i].previous_output) {
        None => Some(TxReason::MissingUtxo { index: i as usize }),
        Some(entry) => if entry.is_coinbase && tip_height + 1 < entry.height
            + DEFAULT_COINBASE_MATURITY {
            Some(TxReason::ImmatureCoinbase { index: i as usize })
        } else {
            None
        },
    }
}

/// Why output `i` of `tx` is refused, if it is: it carries nothing, or
/// less than the dust threshold.
pub open spec fn output_defect(tx: TransactionView, i: int) -> Option<TxReason> {
    if tx.outputs[i].value == 0 {
        Some(TxReason::ZeroOutput { index: i as usize })
    } else if tx.outputs[i].value < DEFAULT_DUST_THRESHOLD {
        Some(TxReason::DustOutput { index: i as usize })
    } else {
        None
    }
}

/// [`repeats_input`] as a predicate on the index.
pub open spec fn repeats_input_at(tx: TransactionView) -> spec_fn(int) -> bool {
    |i: int| repeats_input(tx, i)
}

/// Whether [`input_defect`] finds something, as a predicate on the index.
pub open spec fn input_defect_at(
    tx: TransactionView,
    utxos: Seq<UtxoEntryView>,
    tip_height: u64,
) -> spec_fn(int) -> bool {
    |i: int| input_defect(tx, utxos, tip_height, i) is Some
}

/// Whether [`output_defect`] finds something, as a predicate on the index.
pub open spec fn output_defect_at(tx: TransactionView) -> spec_fn(int) -> bool {
    |i: int| output_defect(tx, i) is Some
}

/// Whether an input carries no signature script, as a predicate on the
/// index.
pub open spec fn unsigned_at(tx: TransactionView) -> spec_fn(int) -> bool {
    |i: int| tx.inputs[i].signature_script.len() == 0
}

/// Whether an output carries nothing, as a predicate on the index.
pub open spec fn zero_output_at(tx: TransactionView) -> spec_fn(int) -> bool {
    |i: int| tx.outputs[i].value == 0
}

/// Whether a transaction after the first is a coinbase, as a predicate on
/// the index.
pub open spec fn extra_coinbase_at(txs: Seq<TransactionView>) -> spec_fn(int) -> bool {
    |i: int| i >= 1 && txs[i].is_coinbase()
}

/// Whether [`BlockValidator::chain_block_defect`] finds something, as a
/// predicate on the index.
pub open spec fn chain_defect_at(
    blocks: Seq<BlockView>,
    start_height: u64,
    pow_key: Seq<u8>,
) -> spec_fn(int) -> bool {
    |i: int| BlockValidator::chain_block_defect(blocks, start_height, pow_key, i) is Some
}

/// The fee of `tx` against `utxos`: what the inputs are worth over the
/// outputs.
pub open spec fn fee_of(tx: TransactionView, utxos: Seq<UtxoEntryView>) -> int {
    input_value(utxos, tx.inputs) - tx.total_output_value()
}

/// The unspent outputs as transaction `i` of a block at `height` finds
/// them: after the transactions before it.
pub open spec fn utxos_before(
    utxos: Seq<UtxoEntryView>,
    txs: Seq<TransactionView>,
    height: u64,
    i: int,
) -> Seq<UtxoEntryView> {
    apply_txs(utxos, txs.take(i), height)
}

/// The fees of the first `n` transactions of a block, the coinbase
/// counting nothing.
pub open spec fn block_fees(
    utxos: Seq<UtxoEntryView>,
    txs: Seq<TransactionView>,
    height: u64,
    n: nat,
) -> int
    decreases n,
{
    if n <= 1 {
        0
    } else {
        block_fees(utxos, txs, height, (n - 1) as nat) + fee_of(
            txs[n - 1],
            utxos_before(utxos, txs, height, n - 1),
        )
    }
}

/// The snapshot of the chain that a block is validated against.
pub struct ValidationContext {
    /// The hash of the tip.
    pub tip: Hash256,
    /// The height of the tip.
    pub tip_height: u64,
    /// The reference time, in seconds since the epoch.
    pub now: u64,
    /// The times of the last blocks, at most eleven, the oldest first.
    pub recent_timestamps: Vec<u64>,
    /// The difficulty that the next block must have.
    pub required_difficulty: u32,
    /// The policy that says what the coinbase may pay.
    pub policy: MonetaryPolicy,
    /// The key of the proof-of-work hash.
    pub pow_key: Hash256,
}

/// The model of a [`ValidationContext`].
pub struct ContextView {
    pub tip: Seq<u8>,
    pub tip_height: u64,
    pub now: u64,
    pub recent_timestamps: Seq<u64>,
    pub required_difficulty: u32,
    pub policy: MonetaryPolicy,
    pub pow_key: Seq<u8>,
}

impl View for ValidationContext {
    type V = ContextView;

    open spec fn view(&self) -> ContextView {
        ContextView {
            tip: self.tip@,
            tip_height: self.tip_height,
            now: self.now,
            recent_timestamps: self.recent_timestamps@,
            required_difficulty: self.required_difficulty,
            policy: self.policy,
            pow_key: self.pow_key@,
        }
    }
}

/// The limits that blocks and transactions are held to.
#[derive(Clone, Copy, Debug)]
pub struct BlockValidator {
    pub max_block_size: usize,
    pub max_transaction_size: usize,
    pub min_transaction_fee: u64,
    pub max_coinbase_value: u64,
}

impl BlockValidator {
    /// The least fee for an encoded size: the minimum fee or ten units per
    /// byte, whichever is more.
    pub open spec fn required_fee(self, size: nat) -> int {
        if self.min_transaction_fee >= size * FEE_PER_BYTE {
            self.min_transaction_fee as int
        } else {
            size * FEE_PER_BYTE
        }
    }

    /// The first rule that `tx` breaks as an ordinary transaction of a
    /// block on a tip of height `tip_height`, if it breaks one. In order:
    /// it has inputs and outputs and is no coinbase; no input repeats an
    /// earlier one; every input names an entry, a coinbase entry a mature
    /// one; no output carries nothing or dust; the sums fit in 64 bits;
    /// the inputs are worth at least the outputs; the fee is at least the
    /// required one and at most the outputs together; every input carries
    /// a signature script. Whether the signature in it is accepted is not
    /// for the validator to say.
    pub open spec fn tx_defect(
        self,
        tx: TransactionView,
        utxos: Seq<UtxoEntryView>,
        tip_height: u64,
    ) -> Option<TxReason> {
        if tx.inputs.len() == 0 {
            Some(TxReason::NoInputs)
        } else if tx.outputs.len() == 0 {
            Some(TxReason::NoOutputs)
        } else if tx.is_coinbase() {
            Some(TxReason::UnexpectedCoinbase)
        } else if first_where(tx.inputs.len() as int, repeats_input_at(tx)) is Some {
            Some(
                TxReason::DuplicateInput {
                    index: first_where(tx.inputs.len() as int, repeats_input_at(tx))->0 as usize,
                },
            )
        } else if first_where(tx.inputs.len() as int, input_defect_at(tx, utxos, tip_height))
            is Some {
            input_defect(
                tx,
                utxos,
                tip_height,
                first_where(tx.inputs.len() as int, input_defect_at(tx, utxos, tip_height))->0,
            )
        } else if first_where(tx.outputs.len() as int, output_defect_at(tx)) is Some {
            output_defect(tx, first_where(tx.outputs.len() as int, output_defect_at(tx))->0)
        } else if input_value(utxos, tx.inputs) > u64::MAX || tx.total_output_value()
            > u64::MAX {
            Some(TxReason::ValueOverflow)
        } else if input_value(utxos, tx.inputs) < tx.total_output_value() {
            Some(TxReason::InputsBelowOutputs)
        } else if fee_of(tx, utxos) < self.required_fee(tx.encoding().len()) {
            Some(
                TxReason::FeeBelowMinimum {
                    fee: fee_of(tx, utxos) as u64,
                    minimum: if self.required_fee(tx.encoding().len()) <= u64::MAX {
                        self.required_fee(tx.encoding().len()) as u64
                    } else {
                        u64::MAX
                    },
                },
            )
        } else if fee_of(tx, utxos) > tx.total_output_value() {
            Some(TxReason::ExcessiveFee)
        } else if first_where(tx.inputs.len() as int, unsigned_at(tx)) is Some {
            Some(
                TxReason::MissingSignature {
                    index: first_where(tx.inputs.len() as int, unsigned_at(tx))->0 as usize,
                },
            )
        } else {
            None
        }
    }

    /// The verdict on `tx` as an ordinary transaction: its fee, or the
    /// first rule it breaks.
    pub open spec fn tx_verdict(
        self,
        tx: TransactionView,
        utxos: Seq<UtxoEntryView>,
        tip_height: u64,
    ) -> Result<u64, QtcError> {
        match self.tx_defect(tx, utxos, tip_height) {
            None => Ok(fee_of(tx, utxos) as u64),
            Some(reason) => Err(QtcError::Transaction(reason)),
        }
    }

    /// The first rule on the shape of a block that `block` breaks, if any:
    /// it holds a transaction, the first is a coinbase, no other is.
    pub open spec fn structure_defect(block: BlockView) -> Option<BlockReason> {
        if block.transactions.len() == 0 {
            Some(BlockReason::NoTransactions)
        } else if !block.transactions[0].is_coinbase() {
            Some(BlockReason::FirstNotCoinbase)
        } else if first_where(
            block.transactions.len() as int,
            extra_coinbase_at(block.transactions),
        ) is Some {
            Some(
                BlockReason::ExtraCoinbase {
                    index: first_where(
                        block.transactions.len() as int,
                        extra_coinbase_at(block.transactions),
                    )->0 as usize,
                },
            )
        } else {
            None
        }
    }

    /// The first rule on the header that `block` breaks in the context,
    /// if any: the height follows the tip's, the previous hash is the tip,
    /// the time is at most two hours after the reference time and, above
    /// height 11 with eleven recent times at hand, after their median, and
    /// the difficulty is the required one.
    pub open spec fn header_defect(block: BlockView, context: ContextView) -> Option<BlockReason> {
        let header = block.header;
        if header.height != context.tip_height + 1 {
            Some(
                BlockReason::BadHeight {
                    expected: if context.tip_height == u64::MAX {
                        u64::MAX
                    } else {
                        (context.tip_height + 1) as u64
                    },
                    got: header.height,
                },
            )
        } else if header.previous_hash != context.tip {
            Some(BlockReason::BadPreviousHash)
        } else if header.timestamp > context.now + MAX_FUTURE_SECONDS {
            Some(BlockReason::TimestampTooFarInFuture)
        } else if header.height > 11 && context.recent_timestamps.len() >= MEDIAN_WINDOW
            && !after_median(context.recent_timestamps, header.timestamp) {
            Some(BlockReason::TimestampNotAfterMedian)
        } else if header.difficulty != context.required_difficulty {
            Some(
                BlockReason::WrongDifficulty {
                    expected: context.required_difficulty,
                    got: header.difficulty,
                },
            )
        } else {
            None
        }
    }

    /// The rule that transaction `i` of a block breaks against the outputs
    /// that are unspent when its turn comes, if any: its hash is new in
    /// the block; the coinbase script of the first is 2 to 100 bytes long;
    /// every other is a valid ordinary transaction; none is larger than
    /// allowed.
    pub open spec fn tx_in_block_defect(
        self,
        txs: Seq<TransactionView>,
        utxos: Seq<UtxoEntryView>,
        tip_height: u64,
        i: int,
    ) -> Option<BlockReason> {
        if repeats_txid(txs, i) {
            Some(BlockReason::DuplicateTransaction { index: i as usize })
        } else if i == 0 && !(2 <= txs[0].inputs[0].signature_script.len() <= 100) {
            Some(BlockReason::CoinbaseScriptSize)
        } else if i > 0 && self.tx_defect(txs[i], utxos, tip_height) is Some {
            Some(
                BlockReason::InvalidTransaction {
                    index: i as usize,
                    reason: self.tx_defect(txs[i], utxos, tip_height)->0,
                },
            )
        } else if txs[i].encoding().len() > self.max_transaction_size {
            Some(
                BlockReason::TransactionTooLarge {
                    index: i as usize,
                    size: txs[i].encoding().len() as usize,
                    max: self.max_transaction_size,
                },
            )
        } else {
            None
        }
    }

    /// The first rule that one of the first `n` transactions of a block
    /// breaks, each against the outputs left by those before it.
    pub open spec fn txs_defect(
        self,
        txs: Seq<TransactionView>,
        utxos: Seq<UtxoEntryView>,
        tip_height: u64,
        height: u64,
        n: nat,
    ) -> Option<BlockReason>
        decreases n,
    {
        if n == 0 {
            None
        } else {
            match self.txs_defect(txs, utxos, tip_height, height, (n - 1) as nat) {
                Some(reason) => Some(reason),
                None => self.tx_in_block_defect(
                    txs,
                    utxos_before(utxos, txs, height, n - 1),
                    tip_height,
                    n - 1,
                ),
            }
        }
    }

    /// The first rule on the coinbase outputs that `block` breaks, if any:
    /// there is an output, and none carries nothing.
    pub open spec fn coinbase_outputs_defect(block: BlockView) -> Option<BlockReason> {
        let coinbase = block.transactions[0];
        if coinbase.outputs.len() == 0 {
            Some(BlockReason::CoinbaseNoOutputs)
        } else if first_where(coinbase.outputs.len() as int, zero_output_at(coinbase)) is Some {
            Some(
                BlockReason::CoinbaseZeroOutput {
                    index: first_where(
                        coinbase.outputs.len() as int,
                        zero_output_at(coinbase),
                    )->0 as usize,
                },
            )
        } else {
            None
        }
    }

    /// The first rule that `block` breaks against the context and the
    /// unspent outputs, if it breaks one. In order: the shape of the block;
    /// the header; every transaction in its turn; the coinbase pays out no
    /// more than the reward of the height and the fees; the merkle root is
    /// that of the transactions; the coinbase outputs; the size of the
    /// block; the proof of work.
    pub open spec fn block_defect(
        self,
        block: BlockView,
        context: ContextView,
        utxos: Seq<UtxoEntryView>,
    ) -> Option<BlockReason> {
        let txs = block.transactions;
        let height = block.header.height;
        if Self::structure_defect(block) is Some {
            Self::structure_defect(block)
        } else if Self::header_defect(block, context) is Some {
            Self::header_defect(block, context)
        } else if self.txs_defect(txs, utxos, context.tip_height, height, txs.len()) is Some {
            self.txs_defect(txs, utxos, context.tip_height, height, txs.len())
        } else if txs[0].total_output_value() > context.policy.reward_at(height as nat)
            + block_fees(utxos, txs, height, txs.len()) {
            Some(BlockReason::CoinbaseExceedsReward)
        } else if merkle_root(txs) != block.header.merkle_root {
            Some(BlockReason::MerkleMismatch)
        } else if Self::coinbase_outputs_defect(block) is Some {
            Self::coinbase_outputs_defect(block)
        } else if block.encoding().len() > self.max_block_size {
            Some(
                BlockReason::TooLarge {
                    size: block.encoding().len() as usize,
                    max: self.max_block_size,
                },
            )
        } else if !meets_difficulty(
            pow_hash(context.pow_key, block.header.encoding()),
            block.header.difficulty,
        ) {
            Some(BlockReason::BadProofOfWork)
        } else {
            None
        }
    }

    /// The verdict on `block`: nothing to object, or the first rule it
    /// breaks.
    pub open spec fn block_verdict(
        self,
        block: BlockView,
        context: ContextView,
        utxos: Seq<UtxoEntryView>,
    ) -> Result<(), QtcError> {
        match self.block_defect(block, context, utxos) {
            None => Ok(()),
            Some(reason) => Err(QtcError::Consensus(reason)),
        }
    }

    /// The default limits.
    pub fn new() -> (validator: Self)
        ensures
            validator.max_block_size == DEFAULT_MAX_BLOCK_SIZE,
            validator.max_transaction_size == DEFAULT_MAX_TRANSACTION_SIZE,
            validator.min_transaction_fee == DEFAULT_MIN_FEE,
            validator.max_coinbase_value == DEFAULT_INITIAL_REWARD,
    {
        BlockValidator {
            max_block_size: DEFAULT_MAX_BLOCK_SIZE,
            max_transaction_size: DEFAULT_MAX_TRANSACTION_SIZE,
            min_transaction_fee: DEFAULT_MIN_FEE,
            max_coinbase_value: DEFAULT_INITIAL_REWARD,
        }
    }

    pub fn with_params(
        max_block_size: usize,
        max_transaction_size: usize,
        min_transaction_fee: u64,
        max_coinbase_value: u64,
    ) -> (validator: Self)
        ensures
            validator.max_block_size == max_block_size,
            validator.max_transaction_size == max_transaction_size,
            validator.min_transaction_fee == min_transaction_fee,
            validator.max_coinbase_value == max_coinbase_value,
    {
        BlockValidator {
            max_block_size,
            max_transaction_size,
            min_transaction_fee,
            max_coinbase_value,
        }
    }


    /// Validates `tx` as an ordinary transaction that is to be spent from
    /// `utxos` in a block on a tip of height `tip_height`, and gives its
    /// fee.
    #[verifier::loop_isolation(false)]
    pub fn check_transaction(&self, tx: &Transaction, utxos: &UtxoSet, tip_height: u64) -> (out:
        Result<u64, QtcError>)
        ensures
            out == self.tx_verdict(tx@, utxos@, tip_height),
            out is Ok ==> tx_applicable(utxos@, tx@) && 0 <= fee_of(tx@, utxos@) <= u64::MAX,
    {
        let ghost txv = tx@;
        let ghost n = txv.inputs.len() as int;
        let ghost m = txv.outputs.len() as int;
        if tx.inputs.len() == 0 {
            return Err(QtcError::Transaction(TxReason::NoInputs));
        }
        if tx.outputs.len() == 0 {
            return Err(QtcError::Transaction(TxReason::NoOutputs));
        }
        if tx.is_coinbase() {
            return Err(QtcError::Transaction(TxReason::UnexpectedCoinbase));
        }
        // No input repeats an earlier one.
        let mut i: usize = 0;
        while i < tx.inputs.len()
            invariant
                i <= tx.inputs@.len(),
                txv == tx@,
                n == tx.inputs@.len(),
                forall|k: int| 0 <= k < i ==> !#[trigger] repeats_input_at(txv)(k),
            decreases tx.inputs@.len() - i,
        {
            let mut j: usize = 0;
            while j < i
                invariant
                    j <= i < tx.inputs@.len(),
                    txv == tx@,
                    n == tx.inputs@.len(),
                    forall|k: int|
                        0 <= k < j ==> (#[trigger] txv.inputs[k]).previous_output
                            != txv.inputs[i as int].previous_output,
                decreases i - j,
            {
                if tx.inputs[j].previous_output == tx.inputs[i].previous_output {
                    proof {
                        assert(txv.inputs[j as int].previous_output
                            == txv.inputs[i as int].previous_output);
                        assert(repeats_input_at(txv)(i as int));
                        lemma_first_where_is(n, repeats_input_at(txv), i as int);
                    }
                    return Err(QtcError::Transaction(TxReason::DuplicateInput { index: i }));
                }
                j += 1;
            }
            assert(!repeats_input_at(txv)(i as int));
            i += 1;
        }
        proof {
            lemma_first_where_none(n, repeats_input_at(txv));
        }
        // Every input names an entry, a coinbase entry a mature one.
        let mut total_input: u128 = 0;
        let mut i: usize = 0;
        while i < tx.inputs.len()
            invariant
                i <= tx.inputs@.len(),
                txv == tx@,
                n == tx.inputs@.len(),
                total_input == input_value(utxos@, txv.inputs.take(i as int)),
                total_input <= i * 0x1_0000_0000_0000_0000,
                forall|k: int|
                    0 <= k < i ==> !#[trigger] input_defect_at(txv, utxos@, tip_height)(k),
            decreases tx.inputs@.len() - i,
        {
            proof {
                lemma_inputs_step(txv.inputs, i as int);
            }
            match utxos.find(&tx.inputs[i].previous_output) {
                None => {
                    proof {
                        assert(input_defect_at(txv, utxos@, tip_height)(i as int));
                        lemma_first_where_is(
                            n,
                            input_defect_at(txv, utxos@, tip_height),
                            i as int,
                        );
                    }
                    return Err(QtcError::Transaction(TxReason::MissingUtxo { index: i }));
                },
                Some(entry) => {
                    if entry.is_coinbase && (tip_height as u128) + 1 < (entry.height as u128) + (
                    DEFAULT_COINBASE_MATURITY as u128) {
                        proof {
                            assert(input_defect_at(txv, utxos@, tip_height)(i as int));
                            lemma_first_where_is(
                                n,
                                input_defect_at(txv, utxos@, tip_height),
                                i as int,
                            );
                        }
                        return Err(
                            QtcError::Transaction(TxReason::ImmatureCoinbase { index: i }),
                        );
                    }
                    total_input = total_input + entry.value as u128;
                },
            }
            assert(!input_defect_at(txv, utxos@, tip_height)(i as int));
            i += 1;
        }
        proof {
            assert(txv.inputs.take(n) =~= txv.inputs);
            lemma_first_where_none(n, input_defect_at(txv, utxos@, tip_height));
            Self::lemma_sound_inputs_applicable(txv, utxos@, tip_height);
        }
        // No output carries nothing or dust.
        let mut k: usize = 0;
        while k < tx.outputs.len()
            invariant
                k <= tx.outputs@.len(),
                txv == tx@,
                m == tx.outputs@.len(),
                forall|q: int| 0 <= q < k ==> !#[trigger] output_defect_at(txv)(q),
            decreases tx.outputs@.len() - k,
        {
            if tx.outputs[k].value == 0 {
                proof {
                    assert(output_defect_at(txv)(k as int));
                    lemma_first_where_is(m, output_defect_at(txv), k as int);
                }
                return Err(QtcError::Transaction(TxReason::ZeroOutput { index: k }));
            }
            if tx.outputs[k].value < DEFAULT_DUST_THRESHOLD {
                proof {
                    assert(output_defect_at(txv)(k as int));
                    lemma_first_where_is(m, output_defect_at(txv), k as int);
                }
                return Err(QtcError::Transaction(TxReason::DustOutput { index: k }));
            }
            assert(!output_defect_at(txv)(k as int));
            k += 1;
        }
        proof {
            lemma_first_where_none(m, output_defect_at(txv));
        }
        let total_output = match tx.checked_total_output_value() {
            None => {
                return Err(QtcError::Transaction(TxReason::ValueOverflow));
            },
            Some(v) => v,
        };
        if total_input > u64::MAX as u128 {
            return Err(QtcError::Transaction(TxReason::ValueOverflow));
        }
        let total_input: u64 = total_input as u64;
        if total_input < total_output {
            return Err(QtcError::Transaction(TxReason::InputsBelowOutputs));
        }
        let fee: u64 = total_input - total_output;
        let size = tx.size();
        let size_fee: u128 = (size as u128) * (FEE_PER_BYTE as u128);
        let required: u128 = if self.min_transaction_fee as u128 >= size_fee {
            self.min_transaction_fee as u128
        } else {
            size_fee
        };
        if (fee as u128) < required {
            let minimum: u64 = if required > u64::MAX as u128 {
                u64::MAX
            } else {
                required as u64
            };
            return Err(QtcError::Transaction(TxReason::FeeBelowMinimum { fee, minimum }));
        }
        if fee > total_output {
            return Err(QtcError::Transaction(TxReason::ExcessiveFee));
        }
        let ghost unsigned = unsigned_at(tx@);
        let mut k: usize = 0;
        while k < tx.inputs.len()
            invariant
                k <= tx.inputs@.len(),
                tx@.inputs.len() == tx.inputs@.len(),
                unsigned == unsigned_at(tx@),
                forall|j: int| 0 <= j < k ==> !#[trigger] unsigned(j),
            decreases tx.inputs@.len() - k,
        {
            assert(tx.inputs@[k as int]@ == tx@.inputs[k as int]);
            if tx.inputs[k].signature_script.len() == 0 {
                proof {
                    assert(unsigned(k as int));
                    lemma_first_where_is(tx@.inputs.len() as int, unsigned, k as int);
                }
                return Err(QtcError::Transaction(TxReason::MissingSignature { index: k }));
            }
            assert(!unsigned(k as int));
            k += 1;
        }
        proof {
            lemma_first_where_none(tx@.inputs.len() as int, unsigned);
        }
        Ok(fee)
    }

    /// A transaction none of whose inputs repeats an earlier one or lacks
    /// an entry can be applied.
    pub proof fn lemma_sound_inputs_applicable(
        tx: TransactionView,
        utxos: Seq<UtxoEntryView>,
        tip_height: u64,
    )
        requires
            first_where(tx.inputs.len() as int, repeats_input_at(tx)) is None,
            first_where(tx.inputs.len() as int, input_defect_at(tx, utxos, tip_height)) is None,
        ensures
            inputs_available(utxos, tx.inputs),
            tx_applicable(utxos, tx),
    {
        lemma_first_where(tx.inputs.len() as int, repeats_input_at(tx));
        lemma_first_where(tx.inputs.len() as int, input_defect_at(tx, utxos, tip_height));
        assert forall|i: int| 0 <= i < tx.inputs.len() implies lookup(
            utxos,
            (#[trigger] tx.inputs[i]).previous_output,
        ) is Some by {
            assert(!input_defect_at(tx, utxos, tip_height)(i));
        }
        assert forall|i: int, j: int| 0 <= i < j < tx.inputs.len() implies (
        #[trigger] tx.inputs[i]).previous_output != (#[trigger] tx.inputs[j]).previous_output by {
            assert(!repeats_input_at(tx)(j));
        }
        crate::chain::utxo::lemma_known_distinct_available(utxos, tx.inputs);
    }


    /// The first rule on the shape of `block` that it breaks, if any.
    #[verifier::loop_isolation(false)]
    pub fn validate_block_structure(&self, block: &Block) -> (out: Result<(), QtcError>)
        ensures
            out == (match Self::structure_defect(block@) {
                None => Ok::<(), QtcError>(()),
                Some(reason) => Err(QtcError::Consensus(reason)),
            }),
    {
        let ghost txs = block@.transactions;
        if block.transactions.len() == 0 {
            return Err(QtcError::Consensus(BlockReason::NoTransactions));
        }
        if !block.transactions[0].is_coinbase() {
            return Err(QtcError::Consensus(BlockReason::FirstNotCoinbase));
        }
        let mut i: usize = 1;
        assert(!extra_coinbase_at(txs)(0));
        while i < block.transactions.len()
            invariant
                1 <= i <= block.transactions@.len(),
                txs == block@.transactions,
                txs.len() == block.transactions@.len(),
                forall|k: int| 0 <= k < i ==> !#[trigger] extra_coinbase_at(txs)(k),
            decreases block.transactions@.len() - i,
        {
            if block.transactions[i].is_coinbase() {
                proof {
                    assert(extra_coinbase_at(txs)(i as int));
                    lemma_first_where_is(txs.len() as int, extra_coinbase_at(txs), i as int);
                }
                return Err(QtcError::Consensus(BlockReason::ExtraCoinbase { index: i }));
            }
            assert(!extra_coinbase_at(txs)(i as int));
            i += 1;
        }
        proof {
            lemma_first_where_none(txs.len() as int, extra_coinbase_at(txs));
        }
        Ok(())
    }

    /// The first rule on the header of `block` that it breaks in the
    /// context, if any.
    pub fn validate_block_header(&self, block: &Block, context: &ValidationContext) -> (out:
        Result<(), QtcError>)
        ensures
            out == (match Self::header_defect(block@, context@) {
                None => Ok::<(), QtcError>(()),
                Some(reason) => Err(QtcError::Consensus(reason)),
            }),
    {
        let header = &block.header;
        if context.tip_height == u64::MAX || header.height != context.tip_height + 1 {
            let expected: u64 = if context.tip_height == u64::MAX {
                u64::MAX
            } else {
                context.tip_height + 1
            };
            return Err(
                QtcError::Consensus(BlockReason::BadHeight { expected, got: header.height }),
            );
        }
        if header.previous_hash != context.tip {
            return Err(QtcError::Consensus(BlockReason::BadPreviousHash));
        }
        if header.timestamp as u128 > context.now as u128 + MAX_FUTURE_SECONDS as u128 {
            return Err(QtcError::Consensus(BlockReason::TimestampTooFarInFuture));
        }
        if header.height > 11 && context.recent_timestamps.len() >= MEDIAN_WINDOW {
            let below = count_times_below(context.recent_timestamps.as_slice(), header.timestamp);
            if 2 * (below as u128) <= context.recent_timestamps.len() as u128 {
                return Err(QtcError::Consensus(BlockReason::TimestampNotAfterMedian));
            }
        }
        if header.difficulty != context.required_difficulty {
            return Err(
                QtcError::Consensus(
                    BlockReason::WrongDifficulty {
                        expected: context.required_difficulty,
                        got: header.difficulty,
                    },
                ),
            );
        }
        Ok(())
    }

    /// Accepts a coinbase whose script is 2 to 100 bytes long.
    pub fn validate_coinbase_structure(&self, tx: &Transaction) -> (out: Result<(), QtcError>)
        ensures
            out is Ok <==> tx@.is_coinbase() && 2 <= tx@.inputs[0].signature_script.len() <= 100,
            out matches Err(e) ==> e == if !tx@.is_coinbase() {
                QtcError::Consensus(BlockReason::FirstNotCoinbase)
            } else {
                QtcError::Consensus(BlockReason::CoinbaseScriptSize)
            },
    {
        if !tx.is_coinbase() {
            return Err(QtcError::Consensus(BlockReason::FirstNotCoinbase));
        }
        let input = &tx.inputs[0];
        if input.signature_script.len() < 2 || input.signature_script.len() > 100 {
            return Err(QtcError::Consensus(BlockReason::CoinbaseScriptSize));
        }
        Ok(())
    }

    /// Accepts a block whose header names the merkle root of its
    /// transactions.
    pub fn validate_merkle_root(&self, block: &Block) -> (out: Result<(), QtcError>)
        ensures
            out is Ok <==> merkle_root(block@.transactions) == block@.header.merkle_root,
            out matches Err(e) ==> e == QtcError::Consensus(BlockReason::MerkleMismatch),
    {
        let calculated_root = Block::calculate_merkle_root(block.transactions.as_slice());
        if calculated_root != block.header.merkle_root {
            return Err(QtcError::Consensus(BlockReason::MerkleMismatch));
        }
        Ok(())
    }

    /// Accepts a block whose encoding is no larger than allowed.
    pub fn validate_block_size(&self, block: &Block) -> (out: Result<(), QtcError>)
        ensures
            out is Ok <==> block@.encoding().len() <= self.max_block_size,
            out matches Err(e) ==> e == QtcError::Consensus(
                BlockReason::TooLarge {
                    size: block@.encoding().len() as usize,
                    max: self.max_block_size,
                },
            ),
    {
        let block_size = block.size();
        if block_size > self.max_block_size {
            return Err(
                QtcError::Consensus(
                    BlockReason::TooLarge { size: block_size, max: self.max_block_size },
                ),
            );
        }
        Ok(())
    }

    /// Accepts the coinbase outputs of a block that holds a transaction:
    /// there is an output, and none carries nothing.
    #[verifier::loop_isolation(false)]
    pub fn validate_coinbase_transaction(&self, block: &Block) -> (out: Result<(), QtcError>)
        requires
            block@.transactions.len() > 0,
        ensures
            out == (match Self::coinbase_outputs_defect(block@) {
                None => Ok::<(), QtcError>(()),
                Some(reason) => Err(QtcError::Consensus(reason)),
            }),
    {
        let coinbase = &block.transactions[0];
        let ghost tx = block@.transactions[0];
        if coinbase.outputs.len() == 0 {
            return Err(QtcError::Consensus(BlockReason::CoinbaseNoOutputs));
        }
        let mut i: usize = 0;
        while i < coinbase.outputs.len()
            invariant
                i <= coinbase.outputs@.len(),
                tx == coinbase@,
                tx == block@.transactions[0],
                tx.outputs.len() == coinbase.outputs@.len(),
                tx.outputs.len() > 0,
                forall|k: int| 0 <= k < i ==> !#[trigger] zero_output_at(tx)(k),
            decreases coinbase.outputs@.len() - i,
        {
            if coinbase.outputs[i].value == 0 {
                proof {
                    assert(zero_output_at(tx)(i as int));
                    lemma_first_where_is(tx.outputs.len() as int, zero_output_at(tx), i as int);
                }
                return Err(QtcError::Consensus(BlockReason::CoinbaseZeroOutput { index: i }));
            }
            assert(!zero_output_at(tx)(i as int));
            i += 1;
        }
        proof {
            lemma_first_where_none(tx.outputs.len() as int, zero_output_at(tx));
        }
        Ok(())
    }

    /// Accepts a block whose proof-of-work hash under `pow_key` meets the
    /// difficulty that its header names.
    pub fn validate_proof_of_work(&self, block: &Block, pow_key: &Hash256) -> (out: Result<
        (),
        QtcError,
    >)
        ensures
            out is Ok <==> meets_difficulty(
                pow_hash(pow_key@, block@.header.encoding()),
                block@.header.difficulty,
            ),
            out matches Err(e) ==> e == QtcError::Consensus(BlockReason::BadProofOfWork),
    {
        if header_meets_difficulty(block, pow_key) {
            Ok(())
        } else {
            Err(QtcError::Consensus(BlockReason::BadProofOfWork))
        }
    }

    /// Validates every transaction of `block` in its turn against the
    /// outputs left by those before it, and gives the fees of the block and
    /// the outputs that the block leaves unspent.
    #[verifier::loop_isolation(false)]
    pub fn validate_block_transactions(
        &self,
        block: &Block,
        utxos: &UtxoSet,
        tip_height: u64,
    ) -> (out: Result<(u128, UtxoSet), QtcError>)
        requires
            block@.transactions.len() > 0,
            block@.transactions[0].is_coinbase(),
        ensures
            out is Ok <==> self.txs_defect(
                block@.transactions,
                utxos@,
                tip_height,
                block@.header.height,
                block@.transactions.len(),
            ) is None,
            out matches Ok(done) ==> done.0 == block_fees(
                utxos@,
                block@.transactions,
                block@.header.height,
                block@.transactions.len(),
            ) && done.1@ == apply_txs(utxos@, block@.transactions, block@.header.height)
                && done.0 <= block@.transactions.len() * 0xFFFF_FFFF_FFFF_FFFF
                && crate::chain::utxo::txs_applicable(
                utxos@,
                block@.transactions,
                block@.header.height,
            ),
            out matches Err(e) ==> Some(e) == (match self.txs_defect(
                block@.transactions,
                utxos@,
                tip_height,
                block@.header.height,
                block@.transactions.len(),
            ) {
                Some(reason) => Some(QtcError::Consensus(reason)),
                None => None,
            }),
    {
        let ghost txs = block@.transactions;
        let ghost start = utxos@;
        let height = block.header.height;
        let mut working = utxos.clone();
        let mut seen: Vec<Hash256> = Vec::new();
        let mut fees: u128 = 0;
        let mut i: usize = 0;
        proof {
            assert(txs.take(0) =~= Seq::<TransactionView>::empty());
        }
        while i < block.transactions.len()
            invariant
                i <= block.transactions@.len(),
                txs == block@.transactions,
                txs.len() == block.transactions@.len(),
                txs.len() > 0,
                txs[0].is_coinbase(),
                start == utxos@,
                height == block@.header.height,
                seen@.len() == i,
                forall|k: int| 0 <= k < i ==> (#[trigger] seen@[k])@ == txs[k].txid(),
                working@ == utxos_before(start, txs, height, i as int),
                fees == block_fees(start, txs, height, i as nat),
                0 <= fees <= i * 0xFFFF_FFFF_FFFF_FFFF,
                crate::chain::utxo::txs_applicable(start, txs.take(i as int), height),
                self.txs_defect(txs, start, tip_height, height, i as nat) is None,
            decreases block.transactions@.len() - i,
        {
            let tx = &block.transactions[i];
            let ghost before = working@;
            proof {
                assert(txs.take(i as int + 1).drop_last() =~= txs.take(i as int));
                assert(txs.take(i as int + 1).last() == txs[i as int]);
                assert(tx@ == txs[i as int]);
            }
            let txid = tx.hash();
            // The hash is new in the block.
            if hash_is_among(&seen, &txid) {
                proof {
                    let k = choose|k: int| 0 <= k < seen@.len() && (#[trigger] seen@[k])@ == txid@;
                    assert(txs[k].txid() == txs[i as int].txid());
                    assert(repeats_txid(txs, i as int));
                    self.lemma_txs_defect_found(
                        txs,
                        start,
                        tip_height,
                        height,
                        i as nat,
                        txs.len(),
                    );
                }
                return Err(QtcError::Consensus(BlockReason::DuplicateTransaction { index: i }));
            }
            proof {
                assert forall|k: int| 0 <= k < i implies (#[trigger] txs[k]).txid() != txs[i as int].txid() by {
                    assert(seen@[k]@ == txs[k].txid());
                }
            }
            assert(!repeats_txid(txs, i as int));
            if i == 0 {
                let script_len = tx.inputs[0].signature_script.len();
                if script_len < 2 || script_len > 100 {
                    proof {
                        self.lemma_txs_defect_found(
                            txs,
                            start,
                            tip_height,
                            height,
                            i as nat,
                            txs.len(),
                        );
                    }
                    return Err(QtcError::Consensus(BlockReason::CoinbaseScriptSize));
                }
            } else {
                match self.check_transaction(tx, &working, tip_height) {
                    Err(QtcError::Transaction(reason)) => {
                        proof {
                            self.lemma_txs_defect_found(
                                txs,
                                start,
                                tip_height,
                                height,
                                i as nat,
                                txs.len(),
                            );
                        }
                        return Err(
                            QtcError::Consensus(
                                BlockReason::InvalidTransaction { index: i, reason },
                            ),
                        );
                    },
                    Err(other) => {
                        return Err(other);
                    },
                    Ok(fee) => {
                        fees = fees + fee as u128;
                    },
                }
            }
            let size = tx.size();
            if size > self.max_transaction_size {
                proof {
                    self.lemma_txs_defect_found(
                        txs,
                        start,
                        tip_height,
                        height,
                        i as nat,
                        txs.len(),
                    );
                }
                return Err(
                    QtcError::Consensus(
                        BlockReason::TransactionTooLarge {
                            index: i,
                            size,
                            max: self.max_transaction_size,
                        },
                    ),
                );
            }
            match working.apply_transaction(tx, height) {
                Err(e) => {
                    return Err(e);
                },
                Ok(()) => {},
            }
            seen.push(txid);
            i += 1;
        }
        proof {
            assert(txs.take(txs.len() as int) =~= txs);
        }
        Ok((fees, working))
    }

    /// Once one of the transactions breaks a rule, the verdict on the
    /// transactions as a whole is that rule.
    pub proof fn lemma_txs_defect_found(
        self,
        txs: Seq<TransactionView>,
        utxos: Seq<UtxoEntryView>,
        tip_height: u64,
        height: u64,
        at: nat,
        n: nat,
    )
        requires
            at < n,
            self.txs_defect(txs, utxos, tip_height, height, at) is None,
            self.tx_in_block_defect(txs, utxos_before(utxos, txs, height, at as int), tip_height, at as int)
                is Some,
        ensures
            self.txs_defect(txs, utxos, tip_height, height, n) == self.tx_in_block_defect(
                txs,
                utxos_before(utxos, txs, height, at as int),
                tip_height,
                at as int,
            ),
        decreases n,
    {
        if n > at + 1 {
            self.lemma_txs_defect_found(txs, utxos, tip_height, height, at, (n - 1) as nat);
        }
    }

    /// Validates `block` against the context and the unspent outputs, and
    /// gives the outputs that the block leaves unspent.
    pub fn check_block(&self, block: &Block, context: &ValidationContext, utxos: &UtxoSet) -> (out:
        Result<UtxoSet, QtcError>)
        requires
            context.policy.well_formed(),
        ensures
            out is Ok <==> self.block_defect(block@, context@, utxos@) is None,
            out matches Ok(next) ==> next@ == apply_txs(
                utxos@,
                block@.transactions,
                block@.header.height,
            ) && crate::chain::utxo::txs_applicable(
                utxos@,
                block@.transactions,
                block@.header.height,
            ),
            out matches Err(e) ==> Err::<(), QtcError>(e) == self.block_verdict(
                block@,
                context@,
                utxos@,
            ),
    {
        match self.validate_block_structure(block) {
            Err(e) => {
                return Err(e);
            },
            Ok(()) => {},
        }
        match self.validate_block_header(block, context) {
            Err(e) => {
                return Err(e);
            },
            Ok(()) => {},
        }
        let (fees, next) = match self.validate_block_transactions(block, utxos, context.tip_height) {
            Err(e) => {
                return Err(e);
            },
            Ok(done) => done,
        };
        let reward = context.policy.coinbase_reward(block.header.height);
        let coinbase_value = block.transactions[0].wide_total_output_value();
        let count = block.transactions.len();
        assert(fees <= count * 0xFFFF_FFFF_FFFF_FFFF);
        if coinbase_value > reward as u128 + fees {
            return Err(QtcError::Consensus(BlockReason::CoinbaseExceedsReward));
        }
        match self.validate_merkle_root(block) {
            Err(e) => {
                return Err(e);
            },
            Ok(()) => {},
        }
        match self.validate_coinbase_transaction(block) {
            Err(e) => {
                return Err(e);
            },
            Ok(()) => {},
        }
        match self.validate_block_size(block) {
            Err(e) => {
                return Err(e);
            },
            Ok(()) => {},
        }
        match self.validate_proof_of_work(block, &context.pow_key) {
            Err(e) => {
                return Err(e);
            },
            Ok(()) => {},
        }
        Ok(next)
    }


    /// Validates `block` as the next block of `blockchain` at the clock's
    /// time.
    pub fn validate_block(&self, block: &Block, blockchain: &Blockchain) -> (out: Result<
        (),
        QtcError,
    >)
        requires
            blockchain.well_formed(),
        ensures
            exists|now: u64| out == self.block_verdict_on(blockchain, block@, now),
    {
        let now = unix_time_now();
        self.validate_block_at(block, blockchain, now)
    }

    /// The verdict of this validator on `block` as the next block of
    /// `blockchain` at the reference time `now`.
    pub open spec fn block_verdict_on(
        self,
        blockchain: &Blockchain,
        block: BlockView,
        now: u64,
    ) -> Result<(), QtcError> {
        self.block_verdict(block, blockchain.context_at(now), blockchain.utxos())
    }

    /// Validates `block` as the next block of `blockchain` at the
    /// reference time `now`.
    pub fn validate_block_at(&self, block: &Block, blockchain: &Blockchain, now: u64) -> (out:
        Result<(), QtcError>)
        requires
            blockchain.well_formed(),
        ensures
            out == self.block_verdict_on(blockchain, block@, now),
    {
        let context = match blockchain.validation_context(now) {
            Err(e) => {
                return Err(e);
            },
            Ok(c) => c,
        };
        match self.check_block(block, &context, blockchain.utxo_set()) {
            Err(e) => Err(e),
            Ok(_) => Ok(()),
        }
    }

    /// Validates `tx` as an ordinary transaction that is to be spent from
    /// the unspent outputs of `blockchain` in the block after its tip.
    pub fn validate_transaction(&self, tx: &Transaction, blockchain: &Blockchain) -> (out: Result<
        bool,
        QtcError,
    >)
        requires
            blockchain.well_formed(),
        ensures
            out is Ok <==> self.tx_defect(
                tx@,
                blockchain.utxos(),
                blockchain.spec_height() as u64,
            ) is None,
            out matches Ok(valid) ==> valid,
            out matches Err(e) ==> Some(e) == (match self.tx_defect(
                tx@,
                blockchain.utxos(),
                blockchain.spec_height() as u64,
            ) {
                Some(reason) => Some(QtcError::Transaction(reason)),
                None => None,
            }),
    {
        match self.check_transaction(tx, blockchain.utxo_set(), blockchain.height()) {
            Err(e) => Err(e),
            Ok(_) => Ok(true),
        }
    }

    /// The rule that block `i` of a run of blocks from `start_height`
    /// breaks, if any: its height is its place in the run; its proof of
    /// work under `pow_key`; its shape; its merkle root; it names the hash
    /// of the block before it in the run.
    pub open spec fn chain_block_defect(
        blocks: Seq<BlockView>,
        start_height: u64,
        pow_key: Seq<u8>,
        i: int,
    ) -> Option<BlockReason> {
        let block = blocks[i];
        if block.header.height != start_height + i {
            Some(
                BlockReason::BadHeight {
                    expected: if start_height + i <= u64::MAX {
                        (start_height + i) as u64
                    } else {
                        u64::MAX
                    },
                    got: block.header.height,
                },
            )
        } else if !meets_difficulty(
            pow_hash(pow_key, block.header.encoding()),
            block.header.difficulty,
        ) {
            Some(BlockReason::BadProofOfWork)
        } else if Self::structure_defect(block) is Some {
            Self::structure_defect(block)
        } else if merkle_root(block.transactions) != block.header.merkle_root {
            Some(BlockReason::MerkleMismatch)
        } else if i > 0 && block.header.previous_hash != blocks[i - 1].header.hash() {
            Some(BlockReason::BrokenLink { index: i as usize })
        } else {
            None
        }
    }

    /// Validates a run of blocks from `start_height` on their own: the
    /// first block that breaks a rule is refused with that rule.
    #[verifier::loop_isolation(false)]
    pub fn validate_chain(&self, blocks: &[Block], start_height: u64, pow_key: &Hash256) -> (out:
        Result<(), QtcError>)
        ensures
            out is Ok <==> first_where(
                blocks@.len() as int,
                chain_defect_at(blocks_view(blocks@), start_height, pow_key@),
            ) is None,
            out matches Err(e) ==> first_where(
                blocks@.len() as int,
                chain_defect_at(blocks_view(blocks@), start_height, pow_key@),
            ) matches Some(i) && Some(e) == (match Self::chain_block_defect(
                blocks_view(blocks@),
                start_height,
                pow_key@,
                i,
            ) {
                Some(reason) => Some(QtcError::Consensus(reason)),
                None => None,
            }),
    {
        let ghost run = blocks_view(blocks@);
        let ghost pred = chain_defect_at(run, start_height, pow_key@);
        let ghost n = blocks@.len() as int;
        let mut i: usize = 0;
        while i < blocks.len()
            invariant
                i <= blocks@.len(),
                forall|k: int| 0 <= k < i ==> !#[trigger] pred(k),
            decreases blocks@.len() - i,
        {
            let block = &blocks[i];
            assert(block@ == run[i as int]);
            let expected: u128 = start_height as u128 + i as u128;
            if block.header.height as u128 != expected {
                proof {
                    assert(pred(i as int));
                    lemma_first_where_is(n, pred, i as int);
                }
                let shown: u64 = if expected > u64::MAX as u128 {
                    u64::MAX
                } else {
                    expected as u64
                };
                return Err(
                    QtcError::Consensus(
                        BlockReason::BadHeight { expected: shown, got: block.header.height },
                    ),
                );
            }
            let mut verdict = self.validate_proof_of_work(block, pow_key);
            if verdict.is_ok() {
                verdict = self.validate_block_structure(block);
            }
            if verdict.is_ok() {
                verdict = self.validate_merkle_root(block);
            }
            if verdict.is_ok() && i > 0 {
                let previous = blocks[i - 1].hash();
                assert(run[i as int - 1] == blocks@[i as int - 1]@);
                if block.header.previous_hash != previous {
                    verdict = Err(QtcError::Consensus(BlockReason::BrokenLink { index: i }));
                }
            }
            match verdict {
                Err(e) => {
                    proof {
                        assert(pred(i as int));
                        lemma_first_where_is(n, pred, i as int);
                    }
                    return Err(e);
                },
                Ok(()) => {},
            }
            assert(!pred(i as int));
            i += 1;
        }
        proof {
            lemma_first_where_none(n, pred);
        }
        Ok(())
    }

    /// A transaction that is accepted conserves value: what its inputs are
    /// worth is what its outputs carry and its fee, and the fee is not
    /// negative; it is at least the required fee and at most the outputs
    /// together.
    pub proof fn lemma_accepted_transaction_conserves(
        self,
        tx: TransactionView,
        utxos: Seq<UtxoEntryView>,
        tip_height: u64,
    )
        requires
            self.tx_defect(tx, utxos, tip_height) is None,
        ensures
            input_value(utxos, tx.inputs) - tx.total_output_value() == fee_of(tx, utxos),
            fee_of(tx, utxos) >= 0,
            fee_of(tx, utxos) >= self.required_fee(tx.encoding().len()),
            fee_of(tx, utxos) <= tx.total_output_value(),
            inputs_known(utxos, tx.inputs),
    {
        lemma_first_where(tx.inputs.len() as int, input_defect_at(tx, utxos, tip_height));
        lemma_first_where(tx.outputs.len() as int, output_defect_at(tx));
        assert forall|i: int| 0 <= i < tx.inputs.len() implies lookup(
            utxos,
            (#[trigger] tx.inputs[i]).previous_output,
        ) is Some by {
            assert(!input_defect_at(tx, utxos, tip_height)(i));
        }
    }

    /// In a block that is accepted every transaction after the coinbase
    /// is accepted against the outputs that those before it leave.
    pub proof fn lemma_accepted_block_transactions(
        self,
        txs: Seq<TransactionView>,
        utxos: Seq<UtxoEntryView>,
        tip_height: u64,
        height: u64,
        n: nat,
        i: int,
    )
        requires
            self.txs_defect(txs, utxos, tip_height, height, n) is None,
            1 <= i < n,
        ensures
            self.tx_defect(txs[i], utxos_before(utxos, txs, height, i), tip_height) is None,
        decreases n,
    {
        if i < n - 1 {
            self.lemma_accepted_block_transactions(
                txs,
                utxos,
                tip_height,
                height,
                (n - 1) as nat,
                i,
            );
        }
    }

    /// A block that is accepted conserves value: its coinbase pays out no
    /// more than the reward of its height and the fees of its
    /// transactions, each of which conserves value against the outputs
    /// that those before it leave; and its proof-of-work hash under the
    /// context's key meets the difficulty that its header names.
    pub proof fn lemma_accepted_block_conserves(
        self,
        block: BlockView,
        context: ContextView,
        utxos: Seq<UtxoEntryView>,
    )
        requires
            self.block_defect(block, context, utxos) is None,
        ensures
            block.transactions.len() >= 1,
            block.transactions[0].is_coinbase(),
            block.transactions[0].total_output_value() <= context.policy.reward_at(
                block.header.height as nat,
            ) + block_fees(utxos, block.transactions, block.header.height, block.transactions.len()),
            forall|i: int|
                1 <= i < block.transactions.len() ==> fee_of(
                    #[trigger] block.transactions[i],
                    utxos_before(utxos, block.transactions, block.header.height, i),
                ) >= 0,
            meets_difficulty(
                pow_hash(context.pow_key, block.header.encoding()),
                block.header.difficulty,
            ),
            merkle_root(block.transactions) == block.header.merkle_root,
    {
        let txs = block.transactions;
        assert forall|i: int| 1 <= i < txs.len() implies fee_of(
            #[trigger] txs[i],
            utxos_before(utxos, txs, block.header.height, i),
        ) >= 0 by {
            self.lemma_accepted_block_transactions(
                txs,
                utxos,
                context.tip_height,
                block.header.height,
                txs.len(),
                i,
            );
            self.lemma_accepted_transaction_conserves(
                txs[i],
                utxos_before(utxos, txs, block.header.height, i),
                context.tip_height,
            );
        }
    }

    /// Whether `tx` may be included in a block at `height` and `time`: its
    /// lock time is zero, or a height that is reached, or a time that has
    /// come.
    pub fn is_transaction_final(&self, tx: &Transaction, height: u64, time: u64) -> (is_final:
        bool)
        ensures
            is_final == (tx@.lock_time == 0 || (if tx@.lock_time < LOCK_TIME_THRESHOLD {
                tx@.lock_time <= height
            } else {
                tx@.lock_time <= time
            })),
    {
        if tx.lock_time == 0 {
            return true;
        }
        if tx.lock_time < LOCK_TIME_THRESHOLD {
            tx.lock_time <= height
        } else {
            tx.lock_time <= time
        }
    }

    /// The limits: block size, transaction size, least fee, greatest
    /// coinbase value.
    pub fn get_config(&self) -> (config: (usize, usize, u64, u64))
        ensures
            config == (
                self.max_block_size,
                self.max_transaction_size,
                self.min_transaction_fee,
                self.max_coinbase_value,
            ),
    {
        (
            self.max_block_size,
            self.max_transaction_size,
            self.min_transaction_fee,
            self.max_coinbase_value,
        )
    }

    /// Replaces each limit for which a value is given.
    pub fn update_config(
        &mut self,
        max_block_size: Option<usize>,
        max_transaction_size: Option<usize>,
        min_transaction_fee: Option<u64>,
        max_coinbase_value: Option<u64>,
    )
        ensures
            final(self).max_block_size == (match max_block_size {
                Some(v) => v,
                None => old(self).max_block_size,
            }),
            final(self).max_transaction_size == (match max_transaction_size {
                Some(v) => v,
                None => old(self).max_transaction_size,
            }),
            final(self).min_transaction_fee == (match min_transaction_fee {
                Some(v) => v,
                None => old(self).min_transaction_fee,
            }),
            final(self).max_coinbase_value == (match max_coinbase_value {
                Some(v) => v,
                None => old(self).max_coinbase_value,
            }),
    {
        if let Some(size) = max_block_size {
            self.max_block_size = size;
        }
        if let Some(size) = max_transaction_size {
            self.max_transaction_size = size;
        }
        if let Some(fee) = min_transaction_fee {
            self.min_transaction_fee = fee;
        }
        if let Some(value) = max_coinbase_value {
            self.max_coinbase_value = value;
        }
    }
}

/// Whether `hash` is one of `seen`.
pub fn hash_is_among(seen: &Vec<Hash256>, hash: &Hash256) -> (found: bool)
    ensures
        found == exists|k: int| 0 <= k < seen@.len() && (#[trigger] seen@[k])@ == hash@,
{
    let mut j: usize = 0;
    while j < seen.len()
        invariant
            j <= seen@.len(),
            forall|k: int| 0 <= k < j ==> (#[trigger] seen@[k])@ != hash@,
        decreases seen@.len() - j,
    {
        if seen[j] == *hash {
            return true;
        }
        j += 1;
    }
    false
}

/// The number of entries of `times` that are below `t`.
pub fn count_times_below(times: &[u64], t: u64) -> (count: usize)
    ensures
        count == count_below(times@, t),
        count <= times@.len(),
{
    let mut count: usize = 0;
    let mut i: usize = 0;
    while i < times.len()
        invariant
            i <= times@.len(),
            count <= i,
            count == count_below(times@.take(i as int), t),
        decreases times@.len() - i,
    {
        proof {
            assert(times@.take(i as int + 1).drop_last() =~= times@.take(i as int));
        }
        if times[i] < t {
            count += 1;
        }
        i += 1;
    }
    assert(times@.take(i as int) =~= times@);
    count
}

/// Whether the proof-of-work hash of the header of `block` under
/// `pow_key` meets the difficulty that the header names.
pub fn header_meets_difficulty(block: &Block, pow_key: &Hash256) -> (meets: bool)
    ensures
        meets == meets_difficulty(
            pow_hash(pow_key@, block@.header.encoding()),
            block@.header.difficulty,
        ),
{
    let header_bytes = block.header.encode();
    match RandomXMiner::new(pow_key.as_bytes().as_slice(), Some(1), false) {
        Err(_) => false,
        Ok(miner) => match miner.hash(header_bytes.as_slice()) {
            Err(_) => false,
            Ok(hash) => hash.meets_difficulty(block.header.difficulty),
        },
    }
}

impl Default for BlockValidator {
    fn default() -> (validator: Self)
        ensures
            validator.max_block_size == DEFAULT_MAX_BLOCK_SIZE,
            validator.max_transaction_size == DEFAULT_MAX_TRANSACTION_SIZE,
            validator.min_transaction_fee == DEFAULT_MIN_FEE,
            validator.max_coinbase_value == DEFAULT_INITIAL_REWARD,
    {
        BlockValidator::new()
    }
}

} // verus!
