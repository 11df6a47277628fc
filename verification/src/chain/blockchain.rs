//! The chain engine: the blocks accepted so far, the outputs they leave
//! unspent, and the step that accepts one more block.

use crate::chain::block::{
    transactions_view, unix_time_now, Block, BlockView,
};
use crate::chain::transaction::Transaction;
use crate::chain::utxo::{
    apply_txs, balance_of, lemma_apply_txs_distinct, outpoints_distinct, outputs_of,
    utxo_refs_view, UtxoEntryView, UtxoSet,
};
use crate::consensus::monetary::MonetaryPolicy;
use crate::consensus::validation::{BlockValidator, ContextView, ValidationContext, MEDIAN_WINDOW};
use crate::crypto::hash::{zero_bytes, Hash256, Hashable};
use crate::error::{ConfigReason, QtcError, TxReason};
use crate::mining::difficulty::DifficultyCalculator;
use crate::storage::database::{
    block_batch, block_changes, block_ops, changes_view, collect_block_changes, UtxoChange,
    UtxoChangeView, WriteBatch,
};
use vstd::prelude::*;
use vstd::string::StringExecFns;

verus! {

/// The time of the genesis block: 10 July 2025, 00:00 UTC.
pub const GENESIS_TIMESTAMP: u64 = 1752105600;

/// The initial difficulty of the main network.
pub const MAINNET_INITIAL_DIFFICULTY: u32 = 20;

/// The initial difficulty of the test network.
pub const TESTNET_INITIAL_DIFFICULTY: u32 = 16;

/// The initial difficulty for development.
pub const DEVELOPMENT_INITIAL_DIFFICULTY: u32 = 6;

/// What distinguishes one network's chain from another's.
#[derive(Debug)]
pub struct ChainParams {
    /// The difficulty of the genesis block and of the blocks before the
    /// first retarget.
    pub initial_difficulty: u32,
    /// The text in the script of the genesis coinbase.
    pub genesis_message: String,
    /// The address that the genesis coinbase names.
    pub genesis_address: String,
    /// The time of the genesis block.
    pub genesis_timestamp: u64,
}

impl ChainParams {
    /// The main network.
    pub fn mainnet() -> (params: Self)
        ensures
            params.initial_difficulty == MAINNET_INITIAL_DIFFICULTY,
            params.genesis_timestamp == GENESIS_TIMESTAMP,
            params.genesis_message@
                == "The Times 10/Jul/2025 Chancellor on brink of second bailout for banks - QTC Genesis"@,
            params.genesis_address@ == "qtc1qw508d6qejxtdg4y5r3zarvary0c5xw7kxdz6v9"@,
    {
        ChainParams {
            initial_difficulty: MAINNET_INITIAL_DIFFICULTY,
            genesis_message: String::from_str(
                "The Times 10/Jul/2025 Chancellor on brink of second bailout for banks - QTC Genesis",
            ),
            genesis_address: String::from_str("qtc1qw508d6qejxtdg4y5r3zarvary0c5xw7kxdz6v9"),
            genesis_timestamp: GENESIS_TIMESTAMP,
        }
    }

    /// The test network.
    pub fn testnet() -> (params: Self)
        ensures
            params.initial_difficulty == TESTNET_INITIAL_DIFFICULTY,
            params.genesis_timestamp == GENESIS_TIMESTAMP,
            params.genesis_message@
                == "QTC Testnet Genesis - Jul 2025 - Testing blockchain implementation"@,
            params.genesis_address@ == "qtctestnet1qw508d6qejxtdg4y5r3zarvary0c5xw7k2pz4m5"@,
    {
        ChainParams {
            initial_difficulty: TESTNET_INITIAL_DIFFICULTY,
            genesis_message: String::from_str(
                "QTC Testnet Genesis - Jul 2025 - Testing blockchain implementation",
            ),
            genesis_address: String::from_str(
                "qtctestnet1qw508d6qejxtdg4y5r3zarvary0c5xw7k2pz4m5",
            ),
            genesis_timestamp: GENESIS_TIMESTAMP,
        }
    }

    /// The main network's genesis with the difficulty for development.
    pub fn development() -> (params: Self)
        ensures
            params.initial_difficulty == DEVELOPMENT_INITIAL_DIFFICULTY,
            params.genesis_timestamp == GENESIS_TIMESTAMP,
            params.genesis_message@
                == "The Times 10/Jul/2025 Chancellor on brink of second bailout for banks - QTC Genesis"@,
            params.genesis_address@ == "qtc1qw508d6qejxtdg4y5r3zarvary0c5xw7kxdz6v9"@,
    {
        ChainParams {
            initial_difficulty: DEVELOPMENT_INITIAL_DIFFICULTY,
            genesis_message: String::from_str(
                "The Times 10/Jul/2025 Chancellor on brink of second bailout for banks - QTC Genesis",
            ),
            genesis_address: String::from_str("qtc1qw508d6qejxtdg4y5r3zarvary0c5xw7kxdz6v9"),
            genesis_timestamp: GENESIS_TIMESTAMP,
        }
    }
}

/// The record of where the chain stands.
#[derive(Clone, Copy, Debug)]
pub struct ChainState {
    pub tip: Hash256,
    pub height: u64,
    pub total_work: u128,
    pub difficulty: u32,
    pub total_supply: u64,
}

/// The model of a [`ChainState`].
pub struct ChainStateView {
    pub tip: Seq<u8>,
    pub height: u64,
    pub total_work: u128,
    pub difficulty: u32,
    pub total_supply: u64,
}

impl View for ChainState {
    type V = ChainStateView;

    open spec fn view(&self) -> ChainStateView {
        ChainStateView {
            tip: self.tip@,
            height: self.height,
            total_work: self.total_work,
            difficulty: self.difficulty,
            total_supply: self.total_supply,
        }
    }
}

impl Default for ChainState {
    fn default() -> (state: Self)
        ensures
            state@ == (ChainStateView {
                tip: zero_bytes(32),
                height: 0,
                total_work: 0,
                difficulty: 0,
                total_supply: 0,
            }),
    {
        ChainState { tip: Hash256::zero(), height: 0, total_work: 0, difficulty: 0, total_supply: 0 }
    }
}

/// The models of a sequence of blocks.
pub open spec fn blocks_view(blocks: Seq<Block>) -> Seq<BlockView> {
    blocks.map_values(|b: Block| b@)
}

/// The times of a sequence of blocks.
pub open spec fn timestamps_of(chain: Seq<BlockView>) -> Seq<u64> {
    chain.map_values(|b: BlockView| b.header.timestamp)
}

/// The last `n` entries of `s`, or all of it where it has fewer.
pub open spec fn last_n<T>(s: Seq<T>, n: int) -> Seq<T> {
    if s.len() > n {
        s.subrange(s.len() - n, s.len() as int)
    } else {
        s
    }
}

/// The genesis block of a network: on the zero hash, at height 0, with
/// nonce 0 and a single coinbase that pays nothing.
pub open spec fn genesis_view(
    message: Seq<char>,
    address: Seq<char>,
    timestamp: u64,
    difficulty: u32,
) -> BlockView {
    let coinbase = crate::chain::transaction::TransactionView {
        version: 1,
        inputs: seq![
            crate::chain::transaction::TxInputView {
                previous_output: crate::chain::transaction::OutPointView {
                    txid: zero_bytes(32),
                    vout: crate::chain::transaction::NULL_VOUT,
                },
                signature_script: vstd::utf8::encode_utf8(message),
                sequence: crate::chain::transaction::FINAL_SEQUENCE,
            },
        ],
        outputs: seq![
            crate::chain::transaction::TxOutputView {
                value: 0,
                script_pubkey: crate::chain::transaction::script_for_address(address),
            },
        ],
        lock_time: 0,
    };
    BlockView {
        header: crate::chain::block::BlockHeaderView {
            previous_hash: zero_bytes(32),
            merkle_root: crate::chain::block::merkle_root(seq![coinbase]),
            timestamp,
            difficulty,
            nonce: 0,
            height: 0,
        },
        transactions: seq![coinbase],
    }
}

/// A validated block together with the state that accepting it leads to.
/// It is made by [`Blockchain::prepare_block`] and consumed by
/// [`Blockchain::commit_block`]; between the two the block can be written
/// to a store.
pub struct BlockCommit {
    block: Block,
    next_utxos: UtxoSet,
    state: ChainState,
    parent: Hash256,
    pow_seed: Hash256,
    changes: Vec<UtxoChange>,
}

impl BlockCommit {
    /// The block names its parent and lies one above it; the state names
    /// the block; the block has its proof of work; no output has two
    /// entries among those left unspent.
    #[verifier::type_invariant]
    spec fn sound(&self) -> bool {
        &&& self.block@.header.previous_hash == self.parent@
        &&& self.block@.header.height >= 1
        &&& self.state@.tip == self.block@.header.hash()
        &&& self.state@.height == self.block@.header.height
        &&& self.state@.difficulty == self.block@.header.difficulty
        &&& crate::mining::randomx::meets_difficulty(
            crate::mining::randomx::pow_hash(self.pow_seed@, self.block@.header.encoding()),
            self.block@.header.difficulty,
        )
        &&& outpoints_distinct(self.next_utxos@)
    }

    /// The block to accept.
    pub closed spec fn block_view(&self) -> BlockView {
        self.block@
    }

    /// The unspent outputs after the block.
    pub closed spec fn utxos_view(&self) -> Seq<UtxoEntryView> {
        self.next_utxos@
    }

    /// The state after the block.
    pub closed spec fn state_view(&self) -> ChainStateView {
        self.state@
    }

    /// The tip that the block was validated on.
    pub closed spec fn parent_view(&self) -> Seq<u8> {
        self.parent@
    }

    /// The key under which the proof of work of the block was checked.
    pub closed spec fn pow_key_view(&self) -> Seq<u8> {
        self.pow_seed@
    }

    /// What the block does to the unspent outputs.
    pub closed spec fn changes_view(&self) -> Seq<UtxoChangeView> {
        changes_view(self.changes@)
    }

    /// The batch that commits the block to the store: the block under its
    /// hash, its hash under its height, the chain state, and the writes of
    /// every change to the unspent outputs.
    pub fn write_batch(&self) -> (batch: WriteBatch)
        ensures
            batch@ == block_ops(self.block_view(), self.state_view(), self.changes_view()),
    {
        block_batch(&self.block, &self.state, &self.changes)
    }

    /// The block to accept.
    pub fn block(&self) -> (block: &Block)
        ensures
            block@ == self.block_view(),
    {
        &self.block
    }

    /// The state after the block.
    pub fn state(&self) -> (state: ChainState)
        ensures
            state@ == self.state_view(),
    {
        self.state
    }

    /// The unspent outputs after the block.
    pub fn utxos(&self) -> (utxos: &UtxoSet)
        ensures
            utxos@ == self.utxos_view(),
    {
        &self.next_utxos
    }
}

/// The chain: its blocks from genesis to the tip and the outputs they
/// leave unspent.
pub struct Blockchain {
    blocks: Vec<Block>,
    tip: Hash256,
    genesis_hash: Hash256,
    utxo_set: UtxoSet,
    validator: BlockValidator,
    monetary_policy: MonetaryPolicy,
    difficulty_calc: DifficultyCalculator,
    initial_difficulty: u32,
    state: ChainState,
}

impl Blockchain {
    /// The blocks from genesis to the tip.
    pub closed spec fn chain(&self) -> Seq<BlockView> {
        blocks_view(self.blocks@)
    }

    /// The hash of the tip as it is kept.
    pub closed spec fn spec_tip(&self) -> Seq<u8> {
        self.tip@
    }

    /// The unspent outputs.
    pub closed spec fn utxos(&self) -> Seq<UtxoEntryView> {
        self.utxo_set@
    }

    /// The limits that blocks are held to.
    pub closed spec fn limits(&self) -> BlockValidator {
        self.validator
    }

    /// The monetary policy.
    pub closed spec fn policy(&self) -> MonetaryPolicy {
        self.monetary_policy
    }

    /// The parameters of retargeting.
    pub closed spec fn calculator(&self) -> DifficultyCalculator {
        self.difficulty_calc
    }

    /// The difficulty before the first retarget.
    pub closed spec fn spec_initial_difficulty(&self) -> u32 {
        self.initial_difficulty
    }

    /// The record of where the chain stands, as it is kept.
    pub closed spec fn spec_state(&self) -> ChainStateView {
        self.state@
    }

    /// The hash of the genesis block as it is kept.
    pub closed spec fn spec_genesis_hash(&self) -> Seq<u8> {
        self.genesis_hash@
    }

    /// The height of the tip.
    pub open spec fn spec_height(&self) -> int {
        self.chain().len() - 1
    }

    /// The key of the proof-of-work hash: the hash of the genesis block.
    pub open spec fn pow_key(&self) -> Seq<u8> {
        self.chain()[0].header.hash()
    }

    /// What holds of every chain: there is a genesis block; every block
    /// lies at the height of its position and names the hash of the block
    /// before it; every block after the genesis block has a proof-of-work
    /// hash under the chain's key that meets its difficulty; the tip is
    /// the hash of the last block; the record names the tip, its height
    /// and its difficulty and the supply that the policy issues up to it;
    /// the policy is usable; no output has two entries among the unspent
    /// ones.
    pub open spec fn well_formed(&self) -> bool {
        &&& self.chain().len() >= 1
        &&& self.chain().len() <= usize::MAX
        &&& forall|i: int|
            0 <= i < self.chain().len() ==> (#[trigger] self.chain()[i]).header.height == i
        &&& forall|i: int|
            1 <= i < self.chain().len() ==> (#[trigger] self.chain()[i]).header.previous_hash
                == self.chain()[i - 1].header.hash()
        &&& forall|i: int|
            1 <= i < self.chain().len() ==> crate::mining::randomx::meets_difficulty(
                crate::mining::randomx::pow_hash(
                    self.pow_key(),
                    (#[trigger] self.chain()[i]).header.encoding(),
                ),
                self.chain()[i].header.difficulty,
            )
        &&& self.spec_genesis_hash() == self.pow_key()
        &&& self.spec_tip() == self.chain().last().header.hash()
        &&& self.spec_state().tip == self.spec_tip()
        &&& self.spec_state().height == self.spec_height()
        &&& self.spec_state().difficulty == self.chain().last().header.difficulty
        &&& self.spec_state().total_supply == self.policy().total_supply_at(
            self.spec_height() as nat,
        )
        &&& self.policy().well_formed()
        &&& outpoints_distinct(self.utxos())
    }

    /// The window of block times that the next difficulty is computed
    /// from: the times of the last blocks, one more than the retarget
    /// interval where there are as many.
    pub open spec fn retarget_window(&self) -> Seq<u64> {
        last_n(timestamps_of(self.chain()), self.calculator().adjustment_interval + 1)
    }

    /// The difficulty that the next block must have: the initial one
    /// while the chain is shorter than the retarget interval, then the one
    /// that follows the tip's difficulty after the window of block times.
    pub open spec fn required_difficulty(&self) -> int {
        if self.chain().len() < self.calculator().adjustment_interval {
            self.spec_initial_difficulty() as int
        } else {
            self.calculator().next_difficulty(
                self.chain().last().header.difficulty,
                self.retarget_window(),
            )
        }
    }

    /// The snapshot that the next block is validated against at the
    /// reference time `now`.
    pub open spec fn context_at(&self, now: u64) -> ContextView {
        ContextView {
            tip: self.spec_tip(),
            tip_height: self.spec_height() as u64,
            now,
            recent_timestamps: last_n(timestamps_of(self.chain()), MEDIAN_WINDOW as int),
            required_difficulty: self.required_difficulty() as u32,
            policy: self.policy(),
            pow_key: self.pow_key(),
        }
    }

    /// The verdict on `block` as the next block at the reference time
    /// `now`: that of the validator against the snapshot.
    pub open spec fn next_block_verdict(&self, block: BlockView, now: u64) -> Result<
        (),
        QtcError,
    > {
        self.limits().block_verdict(block, self.context_at(now), self.utxos())
    }

    /// The genesis block of the main network.
    pub fn create_genesis_block() -> (genesis: Block)
        ensures
            genesis@ == genesis_view(
                "The Times 10/Jul/2025 Chancellor on brink of second bailout for banks - QTC Genesis"@,
                "qtc1qw508d6qejxtdg4y5r3zarvary0c5xw7kxdz6v9"@,
                GENESIS_TIMESTAMP,
                MAINNET_INITIAL_DIFFICULTY,
            ),
    {
        Self::genesis_block(&ChainParams::mainnet())
    }

    /// The genesis block of a network.
    pub fn genesis_block(params: &ChainParams) -> (genesis: Block)
        ensures
            genesis@ == genesis_view(
                params.genesis_message@,
                params.genesis_address@,
                params.genesis_timestamp,
                params.initial_difficulty,
            ),
    {
        let coinbase_tx = Transaction::new_coinbase(
            params.genesis_address.clone(),
            0,
            params.genesis_message.clone(),
        );
        let mut transactions: Vec<Transaction> = Vec::new();
        transactions.push(coinbase_tx);
        assert(transactions_view(transactions@) =~= seq![coinbase_tx@]);
        Block::with_timestamp(
            Hash256::zero(),
            transactions,
            params.initial_difficulty,
            0,
            params.genesis_timestamp,
        )
    }

    /// The chain of the main network at its genesis.
    pub fn new() -> (out: Result<Self, QtcError>)
        ensures
            out matches Ok(chain) && chain.well_formed() && chain.chain() == seq![
                genesis_view(
                    "The Times 10/Jul/2025 Chancellor on brink of second bailout for banks - QTC Genesis"@,
                    "qtc1qw508d6qejxtdg4y5r3zarvary0c5xw7kxdz6v9"@,
                    GENESIS_TIMESTAMP,
                    MAINNET_INITIAL_DIFFICULTY,
                ),
            ],
    {
        Ok(Self::with_params(&ChainParams::mainnet()))
    }

    /// The chain of a network at its genesis: the genesis block alone, its
    /// coinbase output unspent, nothing issued, and the default limits,
    /// policy and retargeting.
    pub fn with_params(params: &ChainParams) -> (chain: Self)
        ensures
            chain.well_formed(),
            chain.chain() == seq![
                genesis_view(
                    params.genesis_message@,
                    params.genesis_address@,
                    params.genesis_timestamp,
                    params.initial_difficulty,
                ),
            ],
            chain.utxos() == apply_txs(Seq::empty(), chain.chain()[0].transactions, 0),
            chain.spec_initial_difficulty() == params.initial_difficulty,
            chain.spec_state().total_supply == 0,
            chain.spec_state().total_work == 0,
    {
        let genesis = Self::genesis_block(params);
        let genesis_hash = genesis.hash();
        let mut utxo_set = UtxoSet::new();
        let applied = utxo_set.apply_block(&genesis);
        proof {
            crate::chain::utxo::lemma_coinbase_only_applicable(
                Seq::empty(),
                genesis@.transactions,
                0,
            );
        }
        let policy = MonetaryPolicy::new();
        let state = ChainState {
            tip: genesis_hash,
            height: 0,
            total_work: 0,
            difficulty: params.initial_difficulty,
            total_supply: 0,
        };
        let mut blocks: Vec<Block> = Vec::new();
        blocks.push(genesis);
        let chain = Blockchain {
            blocks,
            tip: genesis_hash,
            genesis_hash,
            utxo_set,
            validator: BlockValidator::new(),
            monetary_policy: policy,
            difficulty_calc: DifficultyCalculator::new(),
            initial_difficulty: params.initial_difficulty,
            state,
        };
        assert(chain.chain() =~= seq![genesis@]);
        chain
    }

    /// The hash of the tip.
    pub fn tip(&self) -> (tip: Hash256)
        ensures
            tip@ == self.spec_tip(),
    {
        self.tip
    }

    /// The chain has no more blocks than a vector holds.
    pub proof fn lemma_chain_fits(&self)
        ensures
            self.chain().len() <= usize::MAX,
    {
        assert(self.blocks.len() == self.blocks@.len());
    }

    /// The height of the tip.
    pub fn height(&self) -> (height: u64)
        requires
            self.well_formed(),
        ensures
            height == self.spec_height(),
    {
        self.state.height
    }

    /// The key of the proof-of-work hash: the hash of the genesis block.
    pub fn pow_seed(&self) -> (seed: Hash256)
        requires
            self.well_formed(),
        ensures
            seed@ == self.pow_key(),
    {
        self.genesis_hash
    }

    /// The limits that blocks are held to.
    pub fn validator(&self) -> (validator: BlockValidator)
        ensures
            validator == self.limits(),
    {
        self.validator
    }

    /// The monetary policy.
    pub fn monetary_policy(&self) -> (policy: MonetaryPolicy)
        ensures
            policy == self.policy(),
    {
        self.monetary_policy
    }

    /// The unspent outputs.
    pub fn utxo_set(&self) -> (utxos: &UtxoSet)
        ensures
            utxos@ == self.utxos(),
    {
        &self.utxo_set
    }

    /// The difficulty of the tip.
    pub fn get_current_difficulty(&self) -> (out: Result<u32, QtcError>)
        requires
            self.well_formed(),
        ensures
            out matches Ok(difficulty) && difficulty == self.chain().last().header.difficulty,
    {
        Ok(self.state.difficulty)
    }

    /// The supply that the policy issues up to `height`.
    pub fn calculate_total_supply(&self, height: u64) -> (supply: u64)
        requires
            self.well_formed(),
        ensures
            supply == self.policy().total_supply_at(height as nat),
    {
        self.monetary_policy.total_supply_at_height(height)
    }

    /// The record of where the chain stands.
    pub fn get_chain_info(&self) -> (out: Result<ChainState, QtcError>)
        ensures
            out matches Ok(state) && state@ == self.spec_state(),
    {
        Ok(self.state)
    }

    /// The block with the hash `hash`, the latest where several have it.
    pub fn get_block(&self, hash: &Hash256) -> (out: Result<Option<Block>, QtcError>)
        ensures
            out is Ok,
            out matches Ok(Some(block)) ==> block@.header.hash() == hash@ && exists|i: int|
                0 <= i < self.chain().len() && #[trigger] self.chain()[i] == block@,
            out matches Ok(None) ==> forall|i: int|
                0 <= i < self.chain().len() ==> (#[trigger] self.chain()[i]).header.hash()
                    != hash@,
    {
        let mut i: usize = self.blocks.len();
        while i > 0
            invariant
                i <= self.blocks@.len(),
                forall|k: int|
                    i <= k < self.chain().len() ==> (#[trigger] self.chain()[k]).header.hash()
                        != hash@,
            decreases i,
        {
            i -= 1;
            let block_hash = self.blocks[i].hash();
            if block_hash == *hash {
                let found = self.blocks[i].clone();
                assert(self.chain()[i as int] == found@);
                return Ok(Some(found));
            }
        }
        Ok(None)
    }

    /// The block at `height`.
    pub fn get_block_by_height(&self, height: u64) -> (out: Result<Option<Block>, QtcError>)
        ensures
            out is Ok,
            out matches Ok(found) ==> (found is Some <==> height < self.chain().len()),
            out matches Ok(Some(block)) ==> block@ == self.chain()[height as int],
    {
        if (height as u128) < self.blocks.len() as u128 {
            Ok(Some(self.blocks[height as usize].clone()))
        } else {
            Ok(None)
        }
    }

    /// The sum of the values of the unspent outputs that belong to
    /// `address`.
    pub fn get_balance(&self, address: &str) -> (out: Result<u64, QtcError>)
        ensures
            out is Ok <==> balance_of(self.utxos(), address@) <= u64::MAX,
            out matches Ok(balance) ==> balance == balance_of(self.utxos(), address@),
            out matches Err(e) ==> e == QtcError::Transaction(TxReason::ValueOverflow),
    {
        self.utxo_set.get_balance(address)
    }

    /// The unspent outputs that belong to `address`, each as transaction
    /// hash, output index and value.
    pub fn get_utxos(&self, address: &str) -> (out: Result<Vec<(Hash256, u32, u64)>, QtcError>)
        ensures
            out matches Ok(found) && utxo_refs_view(found@) == outputs_of(self.utxos(), address@),
    {
        Ok(self.utxo_set.get_utxos(address))
    }

    /// The last `count` blocks, the tip first.
    pub fn get_latest_blocks(&self, count: usize) -> (out: Result<Vec<Block>, QtcError>)
        requires
            self.well_formed(),
        ensures
            out matches Ok(blocks) && blocks@.len() == (if count < self.chain().len() {
                count as int
            } else {
                self.chain().len() as int
            }) && forall|k: int|
                0 <= k < blocks@.len() ==> (#[trigger] blocks@[k])@ == self.chain()[
                self.chain().len() - 1 - k],
    {
        let mut blocks: Vec<Block> = Vec::new();
        let total = self.blocks.len();
        let mut k: usize = 0;
        while k < count && k < total
            invariant
                total == self.blocks@.len(),
                total == self.chain().len(),
                k <= total,
                k <= count,
                blocks@.len() == k,
                forall|q: int|
                    0 <= q < k ==> (#[trigger] blocks@[q])@ == self.chain()[total - 1 - q],
            decreases total - k,
        {
            blocks.push(self.blocks[total - 1 - k].clone());
            k += 1;
        }
        Ok(blocks)
    }

    /// Validates `tx` as an ordinary transaction that is to be spent from
    /// the unspent outputs in the block after the tip.
    pub fn is_valid_transaction(&self, tx: &Transaction) -> (out: Result<bool, QtcError>)
        requires
            self.well_formed(),
        ensures
            out is Ok <==> self.limits().tx_defect(tx@, self.utxos(), self.spec_height() as u64)
                is None,
            out matches Ok(valid) ==> valid,
            out matches Err(e) ==> Some(e) == (match self.limits().tx_defect(
                tx@,
                self.utxos(),
                self.spec_height() as u64,
            ) {
                Some(reason) => Some(QtcError::Transaction(reason)),
                None => None,
            }),
    {
        self.validator.validate_transaction(tx, self)
    }

    /// Whether the proof-of-work hash of the header of `block` under the
    /// chain's key meets the difficulty that the header names.
    pub fn is_valid_proof_of_work(&self, block: &Block) -> (valid: bool)
        requires
            self.well_formed(),
        ensures
            valid == crate::mining::randomx::meets_difficulty(
                crate::mining::randomx::pow_hash(self.pow_key(), block@.header.encoding()),
                block@.header.difficulty,
            ),
    {
        crate::consensus::validation::header_meets_difficulty(block, &self.genesis_hash)
    }

    /// The times of the last `n` blocks, the oldest first.
    fn recent_times(&self, n: usize) -> (times: Vec<u64>)
        ensures
            times@ == last_n(timestamps_of(self.chain()), n as int),
    {
        let total = self.blocks.len();
        let start: usize = if total > n {
            total - n
        } else {
            0
        };
        let mut times: Vec<u64> = Vec::new();
        let mut i: usize = start;
        while i < total
            invariant
                start <= i <= total,
                total == self.blocks@.len(),
                times@.len() == i - start,
                forall|k: int|
                    0 <= k < times@.len() ==> #[trigger] times@[k] == timestamps_of(self.chain())[
                    start + k],
            decreases total - i,
        {
            times.push(self.blocks[i].header.timestamp);
            i += 1;
        }
        assert(times@ =~= last_n(timestamps_of(self.chain()), n as int));
        times
    }

    /// The difficulty that the block at `height` must have, for the height
    /// after the tip. For any other height nothing is computed and the
    /// tip's difficulty is given.
    pub fn calculate_next_difficulty(&self, height: u64) -> (out: Result<u32, QtcError>)
        requires
            self.well_formed(),
        ensures
            out matches Ok(difficulty) && difficulty == if height == self.spec_height() + 1 {
                self.required_difficulty()
            } else {
                self.chain().last().header.difficulty as int
            },
    {
        if height as u128 != self.blocks.len() as u128 {
            return Ok(self.state.difficulty);
        }
        self.next_required_difficulty()
    }

    /// The difficulty that the next block must have.
    pub fn next_required_difficulty(&self) -> (out: Result<u32, QtcError>)
        requires
            self.well_formed(),
        ensures
            out matches Ok(difficulty) && difficulty == self.required_difficulty(),
    {
        if (self.blocks.len() as u128) < self.difficulty_calc.adjustment_interval as u128 {
            return Ok(self.initial_difficulty);
        }
        let window_len: usize = if self.difficulty_calc.adjustment_interval >= usize::MAX as u64 {
            usize::MAX
        } else {
            (self.difficulty_calc.adjustment_interval + 1) as usize
        };
        let times = self.recent_times(window_len);
        assert(times@ == self.retarget_window());
        self.difficulty_calc.calculate_next_difficulty(self.state.difficulty, times.as_slice())
    }

    /// The snapshot that the next block is validated against at the
    /// reference time `now`.
    pub fn validation_context(&self, now: u64) -> (out: Result<ValidationContext, QtcError>)
        requires
            self.well_formed(),
        ensures
            out matches Ok(context) && context@ == self.context_at(now),
    {
        let required_difficulty = match self.next_required_difficulty() {
            Err(e) => {
                return Err(e);
            },
            Ok(d) => d,
        };
        Ok(
            ValidationContext {
                tip: self.tip,
                tip_height: self.state.height,
                now,
                recent_timestamps: self.recent_times(MEDIAN_WINDOW),
                required_difficulty,
                policy: self.monetary_policy,
                pow_key: self.genesis_hash,
            },
        )
    }

    /// Validates `block` as the next block at the reference time `now`
    /// and, where nothing is to object, gives the step that accepts it.
    /// The chain is not changed.
    pub fn prepare_block(&self, block: &Block, now: u64) -> (out: Result<BlockCommit, QtcError>)
        requires
            self.well_formed(),
        ensures
            out is Ok <==> self.next_block_verdict(block@, now) is Ok,
            out matches Err(e) ==> Err::<(), QtcError>(e) == self.next_block_verdict(block@, now),
            out matches Ok(commit) ==> {
                &&& commit.block_view() == block@
                &&& commit.parent_view() == self.spec_tip()
                &&& commit.pow_key_view() == self.pow_key()
                &&& commit.utxos_view() == apply_txs(
                    self.utxos(),
                    block@.transactions,
                    block@.header.height,
                )
                &&& commit.changes_view() == block_changes(
                    self.utxos(),
                    block@.transactions,
                    block@.header.height,
                    block@.transactions.len(),
                )
                &&& commit.state_view() == (ChainStateView {
                    tip: block@.header.hash(),
                    height: block@.header.height,
                    total_work: 0,
                    difficulty: block@.header.difficulty,
                    total_supply: self.policy().total_supply_at(block@.header.height as nat) as u64,
                })
            },
    {
        let context = match self.validation_context(now) {
            Err(e) => {
                return Err(e);
            },
            Ok(c) => c,
        };
        let next_utxos = match self.validator.check_block(block, &context, &self.utxo_set) {
            Err(e) => {
                return Err(e);
            },
            Ok(next) => next,
        };
        let state = ChainState {
            tip: block.hash(),
            height: block.header.height,
            total_work: 0,
            difficulty: block.header.difficulty,
            total_supply: self.monetary_policy.total_supply_at_height(block.header.height),
        };
        let changes = collect_block_changes(&self.utxo_set, block);
        proof {
            lemma_apply_txs_distinct(self.utxos(), block@.transactions, block@.header.height);
        }
        Ok(
            BlockCommit {
                block: block.clone(),
                next_utxos,
                state,
                parent: self.tip,
                pow_seed: self.genesis_hash,
                changes,
            },
        )
    }

    /// Accepts the block of a step that was prepared on this tip: the
    /// block becomes the tip and the outputs it leaves unspent become the
    /// set. A step that was prepared on another tip is refused and the
    /// chain left as it was.
    pub fn commit_block(&mut self, commit: BlockCommit) -> (out: Result<(), QtcError>)
        requires
            old(self).well_formed(),
            old(self).chain().len() < usize::MAX,
        ensures
            out is Ok <==> commit.parent_view() == old(self).spec_tip()
                && commit.block_view().header.height == old(self).spec_height() + 1
                && commit.pow_key_view() == old(self).pow_key(),
            out is Ok ==> {
                &&& final(self).chain() == old(self).chain().push(commit.block_view())
                &&& final(self).utxos() == commit.utxos_view()
                &&& final(self).spec_tip() == commit.block_view().header.hash()
                &&& final(self).spec_state().height == commit.block_view().header.height
                &&& final(self).spec_state().difficulty == commit.block_view().header.difficulty
                &&& final(self).limits() == old(self).limits()
                &&& final(self).policy() == old(self).policy()
                &&& final(self).calculator() == old(self).calculator()
                &&& final(self).spec_initial_difficulty() == old(self).spec_initial_difficulty()
            },
            out is Err ==> *final(self) == *old(self),
            out matches Err(e) ==> e == QtcError::Consensus(
                crate::error::BlockReason::BadPreviousHash,
            ),
            final(self).well_formed(),
    {
        proof {
            use_type_invariant(&commit);
        }
        if commit.parent != self.tip || commit.block.header.height as u128
            != self.blocks.len() as u128 || commit.pow_seed != self.genesis_hash {
            return Err(QtcError::Consensus(crate::error::BlockReason::BadPreviousHash));
        }
        let BlockCommit { block, next_utxos, state, parent, pow_seed, changes } = commit;
        let ghost before = self.chain();
        let total_supply = self.monetary_policy.total_supply_at_height(block.header.height);
        self.state = ChainState {
            tip: state.tip,
            height: state.height,
            total_work: self.state.total_work,
            difficulty: state.difficulty,
            total_supply,
        };
        self.tip = state.tip;
        self.utxo_set = next_utxos;
        self.blocks.push(block);
        proof {
            assert(self.chain() =~= before.push(block@));
            assert forall|i: int| 0 <= i < self.chain().len() implies (
            #[trigger] self.chain()[i]).header.height == i by {
                if i < before.len() {
                    assert(self.chain()[i] == before[i]);
                }
            }
            assert(self.chain()[0] == before[0]);
            assert forall|i: int| 1 <= i < self.chain().len() implies crate::mining::randomx::meets_difficulty(
                crate::mining::randomx::pow_hash(
                    self.pow_key(),
                    (#[trigger] self.chain()[i]).header.encoding(),
                ),
                self.chain()[i].header.difficulty,
            ) by {
                if i < before.len() {
                    assert(self.chain()[i] == before[i]);
                }
            }
            assert forall|i: int| 1 <= i < self.chain().len() implies (
            #[trigger] self.chain()[i]).header.previous_hash == self.chain()[i
                - 1].header.hash() by {
                if i < before.len() {
                    assert(self.chain()[i] == before[i]);
                    assert(self.chain()[i - 1] == before[i - 1]);
                } else {
                    assert(self.chain()[i - 1] == before[i - 1]);
                    assert(before[i - 1] == before.last());
                }
            }
        }
        Ok(())
    }

    /// Validates `block` as the next block at the reference time `now`
    /// and accepts it; the chain is left as it was where the block is
    /// refused.
    pub fn add_block_at(&mut self, block: Block, now: u64) -> (out: Result<(), QtcError>)
        requires
            old(self).well_formed(),
            old(self).chain().len() < usize::MAX,
        ensures
            out == old(self).next_block_verdict(block@, now),
            out is Ok ==> {
                &&& final(self).chain() == old(self).chain().push(block@)
                &&& final(self).utxos() == apply_txs(
                    old(self).utxos(),
                    block@.transactions,
                    block@.header.height,
                )
                &&& final(self).spec_tip() == block@.header.hash()
            },
            out is Err ==> *final(self) == *old(self),
            final(self).well_formed(),
    {
        let commit = match self.prepare_block(&block, now) {
            Err(e) => {
                return Err(e);
            },
            Ok(c) => c,
        };
        proof {
            old(self).lemma_accepted_follows_tip(block@, now);
        }
        match self.commit_block(commit) {
            Err(e) => Err(e),
            Ok(()) => Ok(()),
        }
    }

    /// Validates `block` as the next block at the clock's time and accepts
    /// it; the chain is left as it was where the block is refused.
    pub fn add_block(&mut self, block: Block) -> (out: Result<(), QtcError>)
        requires
            old(self).well_formed(),
            old(self).chain().len() < usize::MAX,
        ensures
            exists|now: u64| out == old(self).next_block_verdict(block@, now),
            out is Ok ==> {
                &&& final(self).chain() == old(self).chain().push(block@)
                &&& final(self).utxos() == apply_txs(
                    old(self).utxos(),
                    block@.transactions,
                    block@.header.height,
                )
                &&& final(self).spec_tip() == block@.header.hash()
            },
            out is Err ==> *final(self) == *old(self),
            final(self).well_formed(),
    {
        let now = unix_time_now();
        self.add_block_at(block, now)
    }

    /// A block that is accepted names the tip, lies one above it, has the
    /// required difficulty and the merkle root of its transactions, and
    /// its proof-of-work hash under the chain's key meets its difficulty.
    pub proof fn lemma_accepted_follows_tip(&self, block: BlockView, now: u64)
        requires
            self.well_formed(),
            self.next_block_verdict(block, now) is Ok,
        ensures
            block.header.previous_hash == self.spec_tip(),
            block.header.height == self.spec_height() + 1,
            block.header.difficulty == self.required_difficulty(),
            block.header.merkle_root == crate::chain::block::merkle_root(block.transactions),
            crate::mining::randomx::meets_difficulty(
                crate::mining::randomx::pow_hash(self.pow_key(), block.header.encoding()),
                block.header.difficulty,
            ),
    {
        assert(BlockValidator::header_defect(block, self.context_at(now)) is None);
    }

    /// Every block of the chain after the genesis block has a
    /// proof-of-work hash under the chain's key that meets the difficulty
    /// its header names.
    pub proof fn lemma_every_block_has_proof_of_work(&self, height: int)
        requires
            self.well_formed(),
            1 <= height < self.chain().len(),
        ensures
            crate::mining::randomx::meets_difficulty(
                crate::mining::randomx::pow_hash(
                    self.pow_key(),
                    self.chain()[height].header.encoding(),
                ),
                self.chain()[height].header.difficulty,
            ),
    {
    }
}

} // verus!
