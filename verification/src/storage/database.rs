//! The layout of the store: column families, keys, and the batch of puts
//! and deletes that commits a block in one step.

use crate::chain::block::{Block, BlockView};
use crate::chain::blockchain::{ChainState, ChainStateView};
use crate::chain::codec::put_bytes;
use crate::chain::transaction::{OutPoint, OutPointView, Transaction, TransactionView};
use crate::chain::utxo::{
    created_entry, lookup, UtxoEntry,
    UtxoEntryView, UtxoSet,
};
use crate::crypto::hash::{array32_from, hex_encode, hex_text, Hash256, Hashable};
use crate::error::{QtcError, StorageReason};
use crate::wallet::wallet::WalletAddress;
use vstd::bytes::*;
use vstd::prelude::*;
use vstd::utf8::encode_utf8;

verus! {

/// A named family of keys in the store.
#[derive(Clone, Copy, Debug, PartialEq, Eq, Structural)]
pub enum ColumnFamily {
    /// Header hash to encoded block.
    Blocks,
    /// Height key to header hash.
    BlockIndex,
    /// Transaction hash to encoded transaction.
    Transactions,
    /// Outpoint key to encoded entry.
    Utxos,
    /// The key `current` to the encoded chain state.
    ChainState,
    /// Wallet name to wallet record.
    Wallets,
    /// Address markers.
    Addresses,
}

impl ColumnFamily {
    /// The name of the family in the store.
    pub fn name(&self) -> (name: &'static str)
        ensures
            name@ == (match *self {
                ColumnFamily::Blocks => "blocks"@,
                ColumnFamily::BlockIndex => "block_index"@,
                ColumnFamily::Transactions => "transactions"@,
                ColumnFamily::Utxos => "utxos"@,
                ColumnFamily::ChainState => "chain_state"@,
                ColumnFamily::Wallets => "wallets"@,
                ColumnFamily::Addresses => "addresses"@,
            }),
    {
        match self {
            ColumnFamily::Blocks => "blocks",
            ColumnFamily::BlockIndex => "block_index",
            ColumnFamily::Transactions => "transactions",
            ColumnFamily::Utxos => "utxos",
            ColumnFamily::ChainState => "chain_state",
            ColumnFamily::Wallets => "wallets",
            ColumnFamily::Addresses => "addresses",
        }
    }
}

/// One write of a batch.
#[derive(Debug)]
pub enum BatchOp {
    Put { family: ColumnFamily, key: Vec<u8>, value: Vec<u8> },
    Delete { family: ColumnFamily, key: Vec<u8> },
}

/// The model of a [`BatchOp`].
pub enum BatchOpView {
    Put { family: ColumnFamily, key: Seq<u8>, value: Seq<u8> },
    Delete { family: ColumnFamily, key: Seq<u8> },
}

impl View for BatchOp {
    type V = BatchOpView;

    open spec fn view(&self) -> BatchOpView {
        match *self {
            BatchOp::Put { family, key, value } => BatchOpView::Put {
                family,
                key: key@,
                value: value@,
            },
            BatchOp::Delete { family, key } => BatchOpView::Delete { family, key: key@ },
        }
    }
}

/// Writes that the store applies all together or not at all.
#[derive(Debug)]
pub struct WriteBatch {
    pub ops: Vec<BatchOp>,
}

impl View for WriteBatch {
    type V = Seq<BatchOpView>;

    open spec fn view(&self) -> Seq<BatchOpView> {
        self.ops@.map_values(|op: BatchOp| op@)
    }
}

impl WriteBatch {
    /// The empty batch.
    pub fn new() -> (batch: Self)
        ensures
            batch@ == Seq::<BatchOpView>::empty(),
    {
        let batch = WriteBatch { ops: Vec::new() };
        assert(batch@ =~= Seq::<BatchOpView>::empty());
        batch
    }

    /// Appends a put.
    pub fn put(&mut self, family: ColumnFamily, key: Vec<u8>, value: Vec<u8>)
        ensures
            final(self)@ == old(self)@.push(
                BatchOpView::Put { family, key: key@, value: value@ },
            ),
    {
        self.ops.push(BatchOp::Put { family, key, value });
        assert(self@ =~= old(self)@.push(BatchOpView::Put { family, key: key@, value: value@ }));
    }

    /// Appends a delete.
    pub fn delete(&mut self, family: ColumnFamily, key: Vec<u8>)
        ensures
            final(self)@ == old(self)@.push(BatchOpView::Delete { family, key: key@ }),
    {
        self.ops.push(BatchOp::Delete { family, key });
        assert(self@ =~= old(self)@.push(BatchOpView::Delete { family, key: key@ }));
    }

    /// The number of writes.
    pub fn len(&self) -> (n: usize)
        ensures
            n == self@.len(),
    {
        self.ops.len()
    }
}

/// The decimal digits of `n` in ASCII, without leading zeros.
pub open spec fn decimal_digits(n: nat) -> Seq<u8>
    decreases n,
{
    if n < 10 {
        seq![(48 + n) as u8]
    } else {
        decimal_digits(n / 10).push((48 + n % 10) as u8)
    }
}

/// The key of the height index for `height`: `height_` and the decimal
/// digits.
pub open spec fn height_key_spec(height: u64) -> Seq<u8> {
    encode_utf8("height_"@) + decimal_digits(height as nat)
}

/// The outpoint as text: the transaction hash in hexadecimal, a colon, the
/// output index in decimal.
pub open spec fn outpoint_text(outpoint: OutPointView) -> Seq<u8> {
    encode_utf8(hex_text(outpoint.txid)) + encode_utf8(":"@) + decimal_digits(
        outpoint.vout as nat,
    )
}

/// The key that marks an address as seen: `address_` and the address.
pub open spec fn address_marker_spec(address: Seq<char>) -> Seq<u8> {
    encode_utf8("address_"@) + encode_utf8(address)
}

/// The key that marks an unspent output of an address: `utxo_`, the
/// address, an underscore and the outpoint as text.
pub open spec fn utxo_marker_spec(address: Seq<char>, outpoint: OutPointView) -> Seq<u8> {
    encode_utf8("utxo_"@) + encode_utf8(address) + encode_utf8("_"@) + outpoint_text(outpoint)
}

/// The key of the chain state: `current`.
pub open spec fn chain_state_key_spec() -> Seq<u8> {
    encode_utf8("current"@)
}

/// The value of a marker: the digit one.
pub open spec fn marker_value() -> Seq<u8> {
    seq![49u8]
}

/// Appends the decimal digits of `n`.
pub fn put_decimal(buf: &mut Vec<u8>, n: u64)
    ensures
        final(buf)@ == old(buf)@ + decimal_digits(n as nat),
    decreases n,
{
    if n >= 10 {
        put_decimal(buf, n / 10);
    }
    let digit: u8 = 48 + (n % 10) as u8;
    buf.push(digit);
    assert(buf@ =~= old(buf)@ + decimal_digits(n as nat));
}

/// The key of the height index for `height`.
pub fn height_key(height: u64) -> (key: Vec<u8>)
    ensures
        key@ == height_key_spec(height),
{
    let mut key: Vec<u8> = Vec::new();
    put_bytes(&mut key, "height_".as_bytes());
    put_decimal(&mut key, height);
    assert(key@ =~= height_key_spec(height));
    key
}

/// The key of an outpoint in the family of unspent outputs: the
/// transaction hash and the output index in four little-endian bytes, 36
/// bytes in all.
pub fn outpoint_to_key(outpoint: &OutPoint) -> (key: Vec<u8>)
    ensures
        key@ == outpoint@.encoding(),
        key@.len() == 36,
{
    let mut key: Vec<u8> = Vec::new();
    outpoint.encode_into(&mut key);
    proof {
        lemma_auto_spec_u32_to_from_le_bytes();
    }
    assert(key@ =~= outpoint@.encoding());
    key
}

/// The outpoint that a key of 36 bytes stands for.
pub fn key_to_outpoint(key: &[u8]) -> (out: Result<OutPoint, QtcError>)
    ensures
        out is Ok <==> key@.len() == 36,
        out matches Ok(outpoint) ==> outpoint@.encoding() == key@,
        out matches Err(e) ==> e == QtcError::Storage(StorageReason::OutPointKeyLength),
{
    if key.len() != 36 {
        return Err(QtcError::Storage(StorageReason::OutPointKeyLength));
    }
    let txid = Hash256::new(array32_from(key));
    let vout_bytes = vstd::slice::slice_subrange(key, 32, 36);
    let vout = u32_from_le_bytes(vout_bytes);
    proof {
        lemma_auto_spec_u32_to_from_le_bytes();
        assert(key@ =~= key@.subrange(0, 32) + key@.subrange(32, 36));
    }
    Ok(OutPoint { txid, vout })
}

/// The outpoint as text.
pub fn outpoint_to_text(outpoint: &OutPoint) -> (text: Vec<u8>)
    ensures
        text@ == outpoint_text(outpoint@),
{
    let mut text: Vec<u8> = Vec::new();
    let hex = hex_encode(outpoint.txid.as_bytes().as_slice());
    put_bytes(&mut text, hex.as_str().as_bytes());
    put_bytes(&mut text, ":".as_bytes());
    put_decimal(&mut text, outpoint.vout as u64);
    assert(text@ =~= outpoint_text(outpoint@));
    text
}

/// The key that marks an address as seen.
pub fn address_marker_key(address: &str) -> (key: Vec<u8>)
    ensures
        key@ == address_marker_spec(address@),
{
    let mut key: Vec<u8> = Vec::new();
    put_bytes(&mut key, "address_".as_bytes());
    put_bytes(&mut key, address.as_bytes());
    assert(key@ =~= address_marker_spec(address@));
    key
}

/// The key that marks an unspent output of an address.
pub fn utxo_marker_key(address: &str, outpoint: &OutPoint) -> (key: Vec<u8>)
    ensures
        key@ == utxo_marker_spec(address@, outpoint@),
{
    let mut key: Vec<u8> = Vec::new();
    put_bytes(&mut key, "utxo_".as_bytes());
    put_bytes(&mut key, address.as_bytes());
    put_bytes(&mut key, "_".as_bytes());
    let text = outpoint_to_text(outpoint);
    put_bytes(&mut key, text.as_slice());
    assert(key@ =~= utxo_marker_spec(address@, outpoint@));
    key
}

/// The key of the chain state.
pub fn chain_state_key() -> (key: Vec<u8>)
    ensures
        key@ == chain_state_key_spec(),
{
    vstd::slice::slice_to_vec("current".as_bytes())
}

/// What a block does to one unspent output.
#[derive(Debug)]
pub enum UtxoChange {
    /// The output is spent.
    Spend(UtxoEntry),
    /// The output is created.
    Create(UtxoEntry),
}

/// The model of a [`UtxoChange`].
pub enum UtxoChangeView {
    Spend(UtxoEntryView),
    Create(UtxoEntryView),
}

impl View for UtxoChange {
    type V = UtxoChangeView;

    open spec fn view(&self) -> UtxoChangeView {
        match *self {
            UtxoChange::Spend(entry) => UtxoChangeView::Spend(entry@),
            UtxoChange::Create(entry) => UtxoChangeView::Create(entry@),
        }
    }
}

/// The models of a sequence of changes.
pub open spec fn changes_view(changes: Seq<UtxoChange>) -> Seq<UtxoChangeView> {
    changes.map_values(|c: UtxoChange| c@)
}

/// The entries that the first `n` of `inputs` name in `entries`, as
/// spent, an input without entry leaving nothing.
pub open spec fn spends_of(
    entries: Seq<UtxoEntryView>,
    inputs: Seq<crate::chain::transaction::TxInputView>,
    n: nat,
) -> Seq<UtxoChangeView>
    decreases n,
{
    if n == 0 {
        Seq::empty()
    } else {
        match lookup(entries, inputs[n - 1].previous_output) {
            Some(entry) => spends_of(entries, inputs, (n - 1) as nat).push(
                UtxoChangeView::Spend(entry),
            ),
            None => spends_of(entries, inputs, (n - 1) as nat),
        }
    }
}

/// The entries that the first `n` outputs of `tx` create at `height`.
pub open spec fn creates_of(tx: TransactionView, height: u64, n: nat) -> Seq<UtxoChangeView>
    decreases n,
{
    if n == 0 {
        Seq::empty()
    } else {
        creates_of(tx, height, (n - 1) as nat).push(
            UtxoChangeView::Create(created_entry(tx, n - 1, height)),
        )
    }
}

/// What `tx` does to the unspent outputs `entries` at `height`: it spends
/// what its inputs name, unless it is a coinbase, and creates its outputs.
pub open spec fn tx_changes(entries: Seq<UtxoEntryView>, tx: TransactionView, height: u64) -> Seq<
    UtxoChangeView,
> {
    (if tx.is_coinbase() {
        Seq::empty()
    } else {
        spends_of(entries, tx.inputs, tx.inputs.len())
    }) + creates_of(tx, height, tx.outputs.len())
}

/// What the first `n` of `txs` do to the unspent outputs at `height`,
/// each to what those before it leave.
pub open spec fn block_changes(
    entries: Seq<UtxoEntryView>,
    txs: Seq<TransactionView>,
    height: u64,
    n: nat,
) -> Seq<UtxoChangeView>
    decreases n,
{
    if n == 0 {
        Seq::empty()
    } else {
        block_changes(entries, txs, height, (n - 1) as nat) + tx_changes(
            crate::chain::utxo::apply_txs(entries, txs.take(n - 1), height),
            txs[n - 1],
            height,
        )
    }
}

/// Appends what `tx` does to the unspent outputs `utxos` at `height`.
pub fn collect_tx_changes(
    changes: &mut Vec<UtxoChange>,
    utxos: &UtxoSet,
    tx: &Transaction,
    height: u64,
)
    ensures
        changes_view(final(changes)@) == changes_view(old(changes)@) + tx_changes(
            utxos@,
            tx@,
            height,
        ),
{
    let ghost head = changes_view(changes@);
    let tx_hash = tx.hash();
    let coinbase = tx.is_coinbase();
    if !coinbase {
        let mut i: usize = 0;
        while i < tx.inputs.len()
            invariant
                i <= tx.inputs@.len(),
                tx@.inputs.len() == tx.inputs@.len(),
                changes_view(changes@) == head + spends_of(utxos@, tx@.inputs, i as nat),
            decreases tx.inputs@.len() - i,
        {
            let ghost before = changes_view(changes@);
            match utxos.get_utxo(&tx.inputs[i].previous_output) {
                Some(entry) => {
                    changes.push(UtxoChange::Spend(entry));
                    assert(changes_view(changes@) =~= before.push(UtxoChangeView::Spend(entry@)));
                },
                None => {},
            }
            assert(changes_view(changes@) =~= head + spends_of(
                utxos@,
                tx@.inputs,
                (i + 1) as nat,
            ));
            i += 1;
        }
    }
    let ghost middle = changes_view(changes@);
    let mut k: usize = 0;
    while k < tx.outputs.len()
        invariant
            k <= tx.outputs@.len(),
            tx@.outputs.len() == tx.outputs@.len(),
            tx_hash@ == tx@.txid(),
            coinbase == tx@.is_coinbase(),
            changes_view(changes@) == middle + creates_of(tx@, height, k as nat),
        decreases tx.outputs@.len() - k,
    {
        let ghost before = changes_view(changes@);
        let entry = crate::chain::utxo::make_entry(tx_hash, coinbase, tx, k, height);
        changes.push(UtxoChange::Create(entry));
        assert(changes_view(changes@) =~= before.push(UtxoChangeView::Create(entry@)));
        assert(changes_view(changes@) =~= middle + creates_of(tx@, height, (k + 1) as nat));
        k += 1;
    }
    assert(changes_view(changes@) =~= head + tx_changes(utxos@, tx@, height));
}

/// What the transactions of `block` do to the unspent outputs `utxos`,
/// where they can be applied.
pub fn collect_block_changes(utxos: &UtxoSet, block: &Block) -> (changes: Vec<UtxoChange>)
    requires
        crate::chain::utxo::txs_applicable(utxos@, block@.transactions, block@.header.height),
    ensures
        changes_view(changes@) == block_changes(
            utxos@,
            block@.transactions,
            block@.header.height,
            block@.transactions.len(),
        ),
{
    let ghost txs = block@.transactions;
    let height = block.header.height;
    let mut changes: Vec<UtxoChange> = Vec::new();
    let mut working = utxos.clone();
    let mut i: usize = 0;
    assert(changes_view(changes@) =~= Seq::<UtxoChangeView>::empty());
    assert(txs.take(0) =~= Seq::<TransactionView>::empty());
    while i < block.transactions.len()
        invariant
            i <= block.transactions@.len(),
            txs == block@.transactions,
            txs.len() == block.transactions@.len(),
            height == block@.header.height,
            crate::chain::utxo::txs_applicable(utxos@, txs, height),
            working@ == crate::chain::utxo::apply_txs(utxos@, txs.take(i as int), height),
            changes_view(changes@) == block_changes(utxos@, txs, height, i as nat),
        decreases block.transactions@.len() - i,
    {
        proof {
            assert(txs.take(i as int + 1).drop_last() =~= txs.take(i as int));
            assert(txs.take(i as int + 1).last() == txs[i as int]);
            crate::chain::utxo::lemma_txs_applicable_prefix(utxos@, txs, height, i as int + 1);
        }
        collect_tx_changes(&mut changes, &working, &block.transactions[i], height);
        let _ = working.apply_transaction(&block.transactions[i], height);
        i += 1;
    }
    changes
}

/// The writes that one change takes: for a spent output, the deletes of
/// its entry and of its marker; for a created one, the puts of its entry,
/// of its marker and of the marker of its address.
pub open spec fn change_ops(change: UtxoChangeView) -> Seq<BatchOpView> {
    match change {
        UtxoChangeView::Spend(entry) => seq![
            BatchOpView::Delete { family: ColumnFamily::Utxos, key: entry.outpoint().encoding() },
            BatchOpView::Delete {
                family: ColumnFamily::Addresses,
                key: utxo_marker_spec(entry.address, entry.outpoint()),
            },
        ],
        UtxoChangeView::Create(entry) => seq![
            BatchOpView::Put {
                family: ColumnFamily::Utxos,
                key: entry.outpoint().encoding(),
                value: entry.encoding(),
            },
            BatchOpView::Put {
                family: ColumnFamily::Addresses,
                key: utxo_marker_spec(entry.address, entry.outpoint()),
                value: marker_value(),
            },
            BatchOpView::Put {
                family: ColumnFamily::Addresses,
                key: address_marker_spec(entry.address),
                value: marker_value(),
            },
        ],
    }
}

/// The writes that a sequence of changes takes, in order.
pub open spec fn changes_ops(changes: Seq<UtxoChangeView>) -> Seq<BatchOpView>
    decreases changes.len(),
{
    if changes.len() == 0 {
        Seq::empty()
    } else {
        changes_ops(changes.drop_last()) + change_ops(changes.last())
    }
}

/// The writes that commit a block: the block under its hash, its hash
/// under its height, the chain state, and the writes of every change to
/// the unspent outputs.
pub open spec fn block_ops(
    block: BlockView,
    state: ChainStateView,
    changes: Seq<UtxoChangeView>,
) -> Seq<BatchOpView> {
    seq![
        BatchOpView::Put {
            family: ColumnFamily::Blocks,
            key: block.header.hash(),
            value: block.encoding(),
        },
        BatchOpView::Put {
            family: ColumnFamily::BlockIndex,
            key: height_key_spec(block.header.height),
            value: block.header.hash(),
        },
        BatchOpView::Put {
            family: ColumnFamily::ChainState,
            key: chain_state_key_spec(),
            value: state.encoding(),
        },
    ] + changes_ops(changes)
}

/// The batch that commits a block with its chain state and its changes
/// to the unspent outputs.
pub fn block_batch(block: &Block, state: &ChainState, changes: &Vec<UtxoChange>) -> (batch:
    WriteBatch)
    ensures
        batch@ == block_ops(block@, state@, changes_view(changes@)),
{
    let mut batch = WriteBatch::new();
    let block_hash = block.hash();
    batch.put(
        ColumnFamily::Blocks,
        vstd::slice::slice_to_vec(block_hash.as_bytes().as_slice()),
        block.encode(),
    );
    batch.put(
        ColumnFamily::BlockIndex,
        height_key(block.header.height),
        vstd::slice::slice_to_vec(block_hash.as_bytes().as_slice()),
    );
    batch.put(ColumnFamily::ChainState, chain_state_key(), state.encode());
    let ghost head = batch@;
    let ghost all = changes_view(changes@);
    let mut i: usize = 0;
    while i < changes.len()
        invariant
            i <= changes@.len(),
            all == changes_view(changes@),
            batch@ == head + changes_ops(all.take(i as int)),
        decreases changes@.len() - i,
    {
        proof {
            assert(all.take(i as int + 1).drop_last() =~= all.take(i as int));
            assert(all.take(i as int + 1).last() == changes@[i as int]@);
        }
        let ghost before = batch@;
        match &changes[i] {
            UtxoChange::Spend(entry) => {
                let point = OutPoint { txid: entry.txid, vout: entry.vout };
                batch.delete(ColumnFamily::Utxos, outpoint_to_key(&point));
                batch.delete(
                    ColumnFamily::Addresses,
                    utxo_marker_key(entry.address.as_str(), &point),
                );
                assert(batch@ =~= before + change_ops(changes@[i as int]@));
            },
            UtxoChange::Create(entry) => {
                let point = OutPoint { txid: entry.txid, vout: entry.vout };
                let mut one: Vec<u8> = Vec::new();
                one.push(49u8);
                let mut other: Vec<u8> = Vec::new();
                other.push(49u8);
                assert(one@ =~= marker_value());
                assert(other@ =~= marker_value());
                batch.put(ColumnFamily::Utxos, outpoint_to_key(&point), entry.encode());
                batch.put(
                    ColumnFamily::Addresses,
                    utxo_marker_key(entry.address.as_str(), &point),
                    one,
                );
                batch.put(
                    ColumnFamily::Addresses,
                    address_marker_key(entry.address.as_str()),
                    other,
                );
                assert(batch@ =~= before + change_ops(changes@[i as int]@));
            },
        }
        assert(batch@ =~= head + changes_ops(all.take(i as int + 1)));
        i += 1;
    }
    assert(all.take(i as int) =~= all);
    batch
}

/// Where a wallet's address comes from.
#[derive(Clone, Debug)]
pub struct AddressInfo {
    pub wallet_id: String,
    pub derivation_path: String,
}

/// An address of a wallet as the store keeps it: with the name of its
/// wallet.
#[derive(Debug)]
pub struct WalletAddressData {
    pub wallet_id: String,
    pub address_info: WalletAddress,
}

/// The key of an address of a wallet: the name of the wallet, a colon and
/// the address.
pub open spec fn wallet_address_key_spec(wallet_id: Seq<char>, address: Seq<char>) -> Seq<u8> {
    encode_utf8(wallet_id) + encode_utf8(":"@) + encode_utf8(address)
}

/// The key of an address of a wallet.
pub fn wallet_address_key(wallet_id: &str, address: &str) -> (key: Vec<u8>)
    ensures
        key@ == wallet_address_key_spec(wallet_id@, address@),
{
    let mut key: Vec<u8> = Vec::new();
    put_bytes(&mut key, wallet_id.as_bytes());
    put_bytes(&mut key, ":".as_bytes());
    put_bytes(&mut key, address.as_bytes());
    assert(key@ =~= wallet_address_key_spec(wallet_id@, address@));
    key
}

/// Counts and sizes of what the store holds.
#[derive(Clone, Copy, Debug)]
pub struct DatabaseStats {
    pub block_count: usize,
    pub transaction_count: usize,
    pub utxo_count: usize,
    pub wallet_count: usize,
    pub blocks_size: usize,
    pub utxo_size: usize,
    pub total_size: u64,
}

impl DatabaseStats {
    pub fn total_size(&self) -> (size: u64)
        ensures
            size == self.total_size,
    {
        self.total_size
    }
}

impl Default for DatabaseStats {
    fn default() -> (stats: Self)
        ensures
            stats.block_count == 0,
            stats.transaction_count == 0,
            stats.utxo_count == 0,
            stats.wallet_count == 0,
            stats.blocks_size == 0,
            stats.utxo_size == 0,
            stats.total_size == 0,
    {
        DatabaseStats {
            block_count: 0,
            transaction_count: 0,
            utxo_count: 0,
            wallet_count: 0,
            blocks_size: 0,
            utxo_size: 0,
            total_size: 0,
        }
    }
}

} // verus!
