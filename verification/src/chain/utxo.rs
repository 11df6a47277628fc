//! The set of unspent outputs: which outputs exist, what each is worth and
//! to whom it pays, and how a transaction changes the set.

use crate::chain::block::Block;
use crate::chain::transaction::{
    OutPoint, OutPointView, Transaction, TransactionView, TxInputView, OP_DUP,
    OP_HASH160,
};
use crate::crypto::hash::{bytes_equal, hex_encode, hex_text, sha256_digest, Hash256, Hashable};
use crate::error::{QtcError, TxReason};
use vstd::prelude::*;
use vstd::string::StringExecFns;

verus! {

/// The model of a [`UtxoEntry`].
pub struct UtxoEntryView {
    pub txid: Seq<u8>,
    pub vout: u32,
    pub value: u64,
    pub script_pubkey: Seq<u8>,
    pub address: Seq<char>,
    pub height: u64,
    pub is_coinbase: bool,
}

impl UtxoEntryView {
    /// The output that the entry records.
    pub open spec fn outpoint(self) -> OutPointView {
        OutPointView { txid: self.txid, vout: self.vout }
    }
}

/// Whether a script has the pay-to-key-hash shape.
pub open spec fn is_p2pkh(script: Seq<u8>) -> bool {
    script.len() >= 25 && script[0] == OP_DUP && script[1] == OP_HASH160 && script[2] == 20
}

/// The address text that a script is recorded under: `qtc1q` and the
/// hexadecimal 20-byte hash for a pay-to-key-hash script, none for any
/// other.
pub open spec fn script_address(script: Seq<u8>) -> Option<Seq<char>> {
    if is_p2pkh(script) {
        Some("qtc1q"@ + hex_text(script.subrange(3, 23)))
    } else {
        None
    }
}

/// The address text that an entry records for a script: that of
/// [`script_address`], or `unknown`.
pub open spec fn recorded_address(script: Seq<u8>) -> Seq<char> {
    match script_address(script) {
        Some(address) => address,
        None => "unknown"@,
    }
}

/// Whether a script is the pay-to-key-hash script that an address text is
/// paid with: its 20-byte hash is the start of the SHA-256 digest of the
/// text.
pub open spec fn script_matches_address(script: Seq<u8>, address: Seq<char>) -> bool {
    is_p2pkh(script) && script.subrange(3, 23) == sha256_digest(
        vstd::utf8::encode_utf8(address),
    ).subrange(0, 20)
}

/// An entry belongs to an address text when it is recorded under that
/// text or its script is the one the text is paid with.
pub open spec fn pays_to(entry: UtxoEntryView, address: Seq<char>) -> bool {
    entry.address == address || script_matches_address(entry.script_pubkey, address)
}

/// The entry of `entries` for `outpoint`, the latest where several match.
pub open spec fn lookup(entries: Seq<UtxoEntryView>, outpoint: OutPointView) -> Option<
    UtxoEntryView,
>
    decreases entries.len(),
{
    if entries.len() == 0 {
        None
    } else if entries.last().outpoint() == outpoint {
        Some(entries.last())
    } else {
        lookup(entries.drop_last(), outpoint)
    }
}

/// `entries` without the entries for `outpoint`, in the same order.
pub open spec fn without_outpoint(
    entries: Seq<UtxoEntryView>,
    outpoint: OutPointView,
) -> Seq<UtxoEntryView>
    decreases entries.len(),
{
    if entries.len() == 0 {
        entries
    } else if entries.last().outpoint() == outpoint {
        without_outpoint(entries.drop_last(), outpoint)
    } else {
        without_outpoint(entries.drop_last(), outpoint).push(entries.last())
    }
}

/// `entries` with `entry` in place of whatever was recorded for its
/// outpoint.
pub open spec fn with_entry(entries: Seq<UtxoEntryView>, entry: UtxoEntryView) -> Seq<
    UtxoEntryView,
> {
    without_outpoint(entries, entry.outpoint()).push(entry)
}

/// `entries` after the outputs that `inputs` name were spent, one after
/// another.
pub open spec fn spend_inputs(entries: Seq<UtxoEntryView>, inputs: Seq<TxInputView>) -> Seq<
    UtxoEntryView,
>
    decreases inputs.len(),
{
    if inputs.len() == 0 {
        entries
    } else {
        without_outpoint(
            spend_inputs(entries, inputs.drop_last()),
            inputs.last().previous_output,
        )
    }
}

/// Whether each of `inputs` names an entry that is still there when its
/// turn comes.
pub open spec fn inputs_available(entries: Seq<UtxoEntryView>, inputs: Seq<TxInputView>) -> bool
    decreases inputs.len(),
{
    inputs.len() == 0 || (inputs_available(entries, inputs.drop_last()) && lookup(
        spend_inputs(entries, inputs.drop_last()),
        inputs.last().previous_output,
    ) is Some)
}

/// The output index as it is recorded: the position, its low 32 bits where
/// it does not fit.
pub open spec fn recorded_vout(index: int) -> u32 {
    (index % 0x1_0000_0000) as u32
}

/// The entry that output `index` of `tx` creates at `height`.
pub open spec fn created_entry(tx: TransactionView, index: int, height: u64) -> UtxoEntryView {
    UtxoEntryView {
        txid: tx.txid(),
        vout: recorded_vout(index),
        value: tx.outputs[index].value,
        script_pubkey: tx.outputs[index].script_pubkey,
        address: recorded_address(tx.outputs[index].script_pubkey),
        height,
        is_coinbase: tx.is_coinbase(),
    }
}

/// `entries` after the first `n` outputs of `tx` were recorded.
pub open spec fn add_outputs(
    entries: Seq<UtxoEntryView>,
    tx: TransactionView,
    height: u64,
    n: nat,
) -> Seq<UtxoEntryView>
    decreases n,
{
    if n == 0 {
        entries
    } else {
        with_entry(
            add_outputs(entries, tx, height, (n - 1) as nat),
            created_entry(tx, n - 1, height),
        )
    }
}

/// Whether `tx` can be applied: a coinbase always, any other where all its
/// inputs are available.
pub open spec fn tx_applicable(entries: Seq<UtxoEntryView>, tx: TransactionView) -> bool {
    tx.is_coinbase() || inputs_available(entries, tx.inputs)
}

/// `entries` after `tx` was applied at `height`: the inputs spent (none
/// for a coinbase), then every output recorded.
pub open spec fn apply_tx(entries: Seq<UtxoEntryView>, tx: TransactionView, height: u64) -> Seq<
    UtxoEntryView,
> {
    add_outputs(
        if tx.is_coinbase() {
            entries
        } else {
            spend_inputs(entries, tx.inputs)
        },
        tx,
        height,
        tx.outputs.len(),
    )
}

/// `entries` after `txs` were applied in order at `height`.
pub open spec fn apply_txs(
    entries: Seq<UtxoEntryView>,
    txs: Seq<TransactionView>,
    height: u64,
) -> Seq<UtxoEntryView>
    decreases txs.len(),
{
    if txs.len() == 0 {
        entries
    } else {
        apply_tx(apply_txs(entries, txs.drop_last(), height), txs.last(), height)
    }
}

/// Whether `txs` can be applied in order.
pub open spec fn txs_applicable(
    entries: Seq<UtxoEntryView>,
    txs: Seq<TransactionView>,
    height: u64,
) -> bool
    decreases txs.len(),
{
    txs.len() == 0 || (txs_applicable(entries, txs.drop_last(), height) && tx_applicable(
        apply_txs(entries, txs.drop_last(), height),
        txs.last(),
    ))
}

/// The sum of the values of the entries that belong to `address`.
pub open spec fn balance_of(entries: Seq<UtxoEntryView>, address: Seq<char>) -> int
    decreases entries.len(),
{
    if entries.len() == 0 {
        0
    } else {
        balance_of(entries.drop_last(), address) + if pays_to(entries.last(), address) {
            entries.last().value as int
        } else {
            0
        }
    }
}

/// The sum of the values of all entries.
pub open spec fn total_value(entries: Seq<UtxoEntryView>) -> int
    decreases entries.len(),
{
    if entries.len() == 0 {
        0
    } else {
        total_value(entries.drop_last()) + entries.last().value
    }
}

/// The entries that belong to `address`, in order, each as outpoint and
/// value.
pub open spec fn outputs_of(entries: Seq<UtxoEntryView>, address: Seq<char>) -> Seq<
    (Seq<u8>, u32, u64),
>
    decreases entries.len(),
{
    if entries.len() == 0 {
        Seq::empty()
    } else if pays_to(entries.last(), address) {
        outputs_of(entries.drop_last(), address).push(
            (entries.last().txid, entries.last().vout, entries.last().value),
        )
    } else {
        outputs_of(entries.drop_last(), address)
    }
}

/// The sum of the values that the inputs name in `entries`, an input
/// without entry counting nothing.
pub open spec fn input_value(entries: Seq<UtxoEntryView>, inputs: Seq<TxInputView>) -> int
    decreases inputs.len(),
{
    if inputs.len() == 0 {
        0
    } else {
        input_value(entries, inputs.drop_last()) + match lookup(
            entries,
            inputs.last().previous_output,
        ) {
            Some(entry) => entry.value as int,
            None => 0,
        }
    }
}

/// Whether every input names an entry of `entries`.
pub open spec fn inputs_known(entries: Seq<UtxoEntryView>, inputs: Seq<TxInputView>) -> bool {
    forall|i: int|
        0 <= i < inputs.len() ==> lookup(entries, (#[trigger] inputs[i]).previous_output) is Some
}

/// One unspent output.
#[derive(Debug)]
pub struct UtxoEntry {
    pub txid: Hash256,
    pub vout: u32,
    pub value: u64,
    pub script_pubkey: Vec<u8>,
    pub address: String,
    pub height: u64,
    pub is_coinbase: bool,
}

impl View for UtxoEntry {
    type V = UtxoEntryView;

    open spec fn view(&self) -> UtxoEntryView {
        UtxoEntryView {
            txid: self.txid@,
            vout: self.vout,
            value: self.value,
            script_pubkey: self.script_pubkey@,
            address: self.address@,
            height: self.height,
            is_coinbase: self.is_coinbase,
        }
    }
}

impl Clone for UtxoEntry {
    fn clone(&self) -> (copy: Self)
        ensures
            copy@ == self@,
    {
        UtxoEntry {
            txid: self.txid,
            vout: self.vout,
            value: self.value,
            script_pubkey: self.script_pubkey.clone(),
            address: self.address.clone(),
            height: self.height,
            is_coinbase: self.is_coinbase,
        }
    }
}

impl UtxoEntry {
    /// Whether the entry records `outpoint`.
    pub fn is_for(&self, outpoint: &OutPoint) -> (same: bool)
        ensures
            same == (self@.outpoint() == outpoint@),
    {
        self.txid == outpoint.txid && self.vout == outpoint.vout
    }
}

/// The models of a sequence of entries.
pub open spec fn entries_view(entries: Seq<UtxoEntry>) -> Seq<UtxoEntryView> {
    entries.map_values(|e: UtxoEntry| e@)
}

/// Unfolds the recursive definitions over entries at the end of a prefix.
pub proof fn lemma_entries_step(entries: Seq<UtxoEntryView>, i: int)
    requires
        0 <= i < entries.len(),
    ensures
        entries.take(i + 1).drop_last() == entries.take(i),
        entries.take(i + 1).last() == entries[i],
{
    assert(entries.take(i + 1).drop_last() =~= entries.take(i));
}

/// Unfolds the recursive definitions over inputs at the end of a prefix.
pub proof fn lemma_inputs_step(inputs: Seq<TxInputView>, i: int)
    requires
        0 <= i < inputs.len(),
    ensures
        inputs.take(i + 1).drop_last() == inputs.take(i),
        inputs.take(i + 1).last() == inputs[i],
{
    assert(inputs.take(i + 1).drop_last() =~= inputs.take(i));
}

/// Removal distributes over concatenation.
pub proof fn lemma_without_concat(
    a: Seq<UtxoEntryView>,
    b: Seq<UtxoEntryView>,
    outpoint: OutPointView,
)
    ensures
        without_outpoint(a + b, outpoint) == without_outpoint(a, outpoint) + without_outpoint(
            b,
            outpoint,
        ),
    decreases b.len(),
{
    if b.len() == 0 {
        assert(a + b =~= a);
        assert(without_outpoint(a, outpoint) + without_outpoint(b, outpoint) =~= without_outpoint(
            a,
            outpoint,
        ));
    } else {
        lemma_without_concat(a, b.drop_last(), outpoint);
        assert((a + b).drop_last() =~= a + b.drop_last());
        assert((a + b).last() == b.last());
        if b.last().outpoint() != outpoint {
            assert(without_outpoint(a + b, outpoint) =~= without_outpoint(a, outpoint)
                + without_outpoint(b, outpoint));
        }
    }
}

/// The script of an entry is recorded under the address text that
/// [`script_address`] gives, where it gives one.
pub fn script_to_address(script: &[u8]) -> (address: Option<String>)
    ensures
        address is Some <==> script_address(script@) is Some,
        address matches Some(text) ==> Some(text@) == script_address(script@),
{
    if script.len() >= 25 && script[0] == OP_DUP && script[1] == OP_HASH160 && script[2] == 20 {
        let hash = vstd::slice::slice_subrange(script, 3, 23);
        let text = String::from_str("qtc1q").concat(hex_encode(hash).as_str());
        Some(text)
    } else {
        None
    }
}

/// The set of unspent outputs, in the order in which they were recorded.
#[derive(Debug)]
pub struct UtxoSet {
    entries: Vec<UtxoEntry>,
    dirty: bool,
}

impl View for UtxoSet {
    type V = Seq<UtxoEntryView>;

    closed spec fn view(&self) -> Seq<UtxoEntryView> {
        entries_view(self.entries@)
    }
}

impl Clone for UtxoSet {
    fn clone(&self) -> (copy: Self)
        ensures
            copy@ == self@,
            copy.is_dirty() == self.is_dirty(),
    {
        proof {
            use_type_invariant(self);
        }
        UtxoSet { entries: clone_entries(&self.entries), dirty: self.dirty }
    }
}

/// A copy of a vector of entries.
pub fn clone_entries(entries: &Vec<UtxoEntry>) -> (copy: Vec<UtxoEntry>)
    ensures
        entries_view(copy@) == entries_view(entries@),
{
    let mut copy: Vec<UtxoEntry> = Vec::new();
    let mut i: usize = 0;
    while i < entries.len()
        invariant
            i <= entries@.len(),
            copy@.len() == i,
            forall|j: int| 0 <= j < i ==> copy@[j]@ == entries@[j]@,
        decreases entries@.len() - i,
    {
        copy.push(entries[i].clone());
        i += 1;
    }
    assert(entries_view(copy@) =~= entries_view(entries@));
    copy
}

/// The latest entry for `outpoint`, by position.
fn find_entry(entries: &Vec<UtxoEntry>, outpoint: &OutPoint) -> (found: Option<usize>)
    ensures
        found is Some <==> lookup(entries_view(entries@), outpoint@) is Some,
        found matches Some(i) ==> i < entries@.len() && Some(entries@[i as int]@) == lookup(
            entries_view(entries@),
            outpoint@,
        ),
{
    let ghost all = entries_view(entries@);
    let mut i: usize = entries.len();
    assert(all.take(i as int) =~= all);
    while i > 0
        invariant
            i <= entries@.len(),
            all == entries_view(entries@),
            lookup(all, outpoint@) == lookup(all.take(i as int), outpoint@),
        decreases i,
    {
        i -= 1;
        proof {
            lemma_entries_step(all, i as int);
        }
        if entries[i].is_for(outpoint) {
            return Some(i);
        }
    }
    None
}

/// Removes every entry for `outpoint`.
fn remove_entries(entries: &mut Vec<UtxoEntry>, outpoint: &OutPoint)
    ensures
        entries_view(final(entries)@) == without_outpoint(entries_view(old(entries)@), outpoint@),
{
    let ghost all = entries_view(entries@);
    let mut i: usize = entries.len();
    assert(all.take(i as int) + without_outpoint(all.subrange(i as int, all.len() as int), outpoint@)
        =~= all);
    while i > 0
        invariant
            i <= all.len(),
            i <= entries@.len(),
            entries_view(entries@) == all.take(i as int) + without_outpoint(
                all.subrange(i as int, all.len() as int),
                outpoint@,
            ),
        decreases i,
    {
        i -= 1;
        let ghost item = all[i as int];
        let ghost rest = all.subrange(i as int + 1, all.len() as int);
        let ghost before = entries_view(entries@);
        proof {
            assert(all.subrange(i as int, all.len() as int) =~= seq![item] + rest);
            lemma_without_concat(seq![item], rest, outpoint@);
            assert(seq![item].drop_last() =~= Seq::<UtxoEntryView>::empty());
            assert(without_outpoint(Seq::<UtxoEntryView>::empty(), outpoint@)
                =~= Seq::<UtxoEntryView>::empty());
            assert(seq![item].last() == item);
            assert(without_outpoint(seq![item], outpoint@) =~= if item.outpoint() == outpoint@ {
                Seq::<UtxoEntryView>::empty()
            } else {
                seq![item]
            });
            assert(before[i as int] == item);
        }
        if entries[i].is_for(outpoint) {
            entries.remove(i);
            assert(entries_view(entries@) =~= before.remove(i as int));
            assert(before.remove(i as int) =~= all.take(i as int) + without_outpoint(
                rest,
                outpoint@,
            ));
        } else {
            assert(before =~= all.take(i as int) + (seq![item] + without_outpoint(
                rest,
                outpoint@,
            )));
        }
    }
    assert(all.subrange(0, all.len() as int) =~= all);
    assert(all.take(0) + without_outpoint(all, outpoint@) =~= without_outpoint(all, outpoint@));
}

/// The entry that output `k` of `tx` creates at `height`.
pub fn make_entry(tx_hash: Hash256, coinbase: bool, tx: &Transaction, k: usize, height: u64) -> (entry:
    UtxoEntry)
    requires
        tx_hash@ == tx@.txid(),
        coinbase == tx@.is_coinbase(),
        k < tx@.outputs.len(),
    ensures
        entry@ == created_entry(tx@, k as int, height),
        entry.txid == tx_hash,
{
    let output = &tx.outputs[k];
    let address = match script_to_address(output.script_pubkey.as_slice()) {
        Some(text) => text,
        None => String::from_str("unknown"),
    };
    let vout: u32 = ((k as u64) % 0x1_0000_0000) as u32;
    UtxoEntry {
        txid: tx_hash,
        vout,
        value: output.value,
        script_pubkey: output.script_pubkey.clone(),
        address,
        height,
        is_coinbase: coinbase,
    }
}

/// Applies `tx` to `entries`. Where an input is missing the entries are
/// left partly changed.
fn apply_in_place(entries: &mut Vec<UtxoEntry>, tx: &Transaction, height: u64) -> (out: Result<
    (),
    QtcError,
>)
    ensures
        out is Ok <==> tx_applicable(entries_view(old(entries)@), tx@),
        out is Ok ==> entries_view(final(entries)@) == apply_tx(
            entries_view(old(entries)@),
            tx@,
            height,
        ),
        out matches Err(e) ==> exists|index: usize|
            e == QtcError::Transaction(TxReason::MissingUtxo { index }) && first_missing(
                entries_view(old(entries)@),
                tx@.inputs,
                index as int,
            ),
{
    let ghost start = entries_view(entries@);
    let tx_hash = tx.hash();
    let coinbase = tx.is_coinbase();
    if !coinbase {
        let mut i: usize = 0;
        while i < tx.inputs.len()
            invariant
                i <= tx.inputs@.len(),
                tx@.inputs.len() == tx.inputs@.len(),
                !tx@.is_coinbase(),
                start == entries_view(old(entries)@),
                inputs_available(start, tx@.inputs.take(i as int)),
                entries_view(entries@) == spend_inputs(start, tx@.inputs.take(i as int)),
            decreases tx.inputs@.len() - i,
        {
            proof {
                lemma_inputs_step(tx@.inputs, i as int);
            }
            let outpoint = &tx.inputs[i].previous_output;
            match find_entry(entries, outpoint) {
                None => {
                    proof {
                        lemma_unavailable_from(start, tx@.inputs, i as int);
                        assert(first_missing(start, tx@.inputs, i as int));
                    }
                    return Err(QtcError::Transaction(TxReason::MissingUtxo { index: i }));
                },
                Some(_) => {},
            }
            remove_entries(entries, outpoint);
            i += 1;
        }
        assert(tx@.inputs.take(i as int) =~= tx@.inputs);
    }
    let ghost spent = entries_view(entries@);
    let mut k: usize = 0;
    while k < tx.outputs.len()
        invariant
            k <= tx.outputs@.len(),
            tx@.outputs.len() == tx.outputs@.len(),
            tx_hash@ == tx@.txid(),
            coinbase == tx@.is_coinbase(),
            entries_view(entries@) == add_outputs(spent, tx@, height, k as nat),
        decreases tx.outputs@.len() - k,
    {
        let entry = make_entry(tx_hash, coinbase, tx, k, height);
        let vout = entry.vout;
        let point = OutPoint { txid: tx_hash, vout };
        remove_entries(entries, &point);
        let ghost removed = entries_view(entries@);
        entries.push(entry);
        assert(entries_view(entries@) =~= removed.push(entry@));
        k += 1;
    }
    Ok(())
}

/// Input `index` is the first of `inputs` that names no entry when its
/// turn comes.
pub open spec fn first_missing(
    entries: Seq<UtxoEntryView>,
    inputs: Seq<TxInputView>,
    index: int,
) -> bool {
    &&& 0 <= index < inputs.len()
    &&& inputs_available(entries, inputs.take(index))
    &&& lookup(spend_inputs(entries, inputs.take(index)), inputs[index].previous_output) is None
}

/// Transaction `at` is the first of `txs` that cannot be applied, and its
/// input `index` the first that names no entry when its turn comes.
pub open spec fn first_unapplicable(
    entries: Seq<UtxoEntryView>,
    txs: Seq<TransactionView>,
    height: u64,
    at: int,
    index: int,
) -> bool {
    &&& 0 <= at < txs.len()
    &&& txs_applicable(entries, txs.take(at), height)
    &&& first_missing(apply_txs(entries, txs.take(at), height), txs[at].inputs, index)
}

/// Once an input is missing, the inputs as a whole are not available.
pub proof fn lemma_unavailable_from(
    entries: Seq<UtxoEntryView>,
    inputs: Seq<TxInputView>,
    index: int,
)
    requires
        0 <= index < inputs.len(),
        lookup(spend_inputs(entries, inputs.take(index)), inputs[index].previous_output) is None,
    ensures
        !inputs_available(entries, inputs),
    decreases inputs.len() - index,
{
    if index == inputs.len() - 1 {
        assert(inputs.take(index) =~= inputs.drop_last());
    } else {
        let shorter = inputs.drop_last();
        assert(shorter.take(index) =~= inputs.take(index));
        lemma_unavailable_from(entries, shorter, index);
    }
}

impl UtxoSet {
    /// The set is a mapping: no outpoint has two entries.
    #[verifier::type_invariant]
    spec fn mapping(&self) -> bool {
        outpoints_distinct(entries_view(self.entries@))
    }

    /// The empty set.
    pub fn new() -> (set: Self)
        ensures
            set@ == Seq::<UtxoEntryView>::empty(),
            outpoints_distinct(set@),
            !set.is_dirty(),
    {
        let set = UtxoSet { entries: Vec::new(), dirty: false };
        assert(set@ =~= Seq::<UtxoEntryView>::empty());
        set
    }

    /// Whether the set was changed since it was last flushed.
    pub closed spec fn is_dirty(&self) -> bool {
        self.dirty
    }

    /// Applies every transaction of `block` in order at the block's
    /// height, or none where one of them cannot be applied. The set is
    /// flushed after.
    pub fn apply_block(&mut self, block: &Block) -> (out: Result<(), QtcError>)
        ensures
            out is Ok <==> txs_applicable(old(self)@, block@.transactions, block@.header.height),
            out is Ok ==> final(self)@ == apply_txs(
                old(self)@,
                block@.transactions,
                block@.header.height,
            ) && !final(self).is_dirty(),
            out is Err ==> final(self)@ == old(self)@ && final(self).is_dirty() == old(self).is_dirty(),
            out matches Err(e) ==> exists|at: int, index: usize|
                e == QtcError::Transaction(TxReason::MissingUtxo { index })
                    && #[trigger] first_unapplicable(
                    old(self)@,
                    block@.transactions,
                    block@.header.height,
                    at,
                    index as int,
                ),
            outpoints_distinct(final(self)@),
    {
        proof {
            use_type_invariant(&*self);
            lemma_apply_txs_distinct(self@, block@.transactions, block@.header.height);
        }
        let ghost txs = block@.transactions;
        let height = block.header.height;
        let mut candidate = clone_entries(&self.entries);
        let mut i: usize = 0;
        while i < block.transactions.len()
            invariant
                i <= block.transactions@.len(),
                txs == block@.transactions,
                txs.len() == block.transactions@.len(),
                height == block@.header.height,
                txs_applicable(self@, txs.take(i as int), height),
                entries_view(candidate@) == apply_txs(self@, txs.take(i as int), height),
                *self == *old(self),
                outpoints_distinct(self@),
            decreases block.transactions@.len() - i,
        {
            proof {
                assert(txs.take(i as int + 1).drop_last() =~= txs.take(i as int));
            }
            let ghost reached = entries_view(candidate@);
            match apply_in_place(&mut candidate, &block.transactions[i], height) {
                Err(e) => {
                    proof {
                        lemma_txs_unapplicable_from(self@, txs, height, i as int);
                        let index = choose|index: usize|
                            e == QtcError::Transaction(TxReason::MissingUtxo { index })
                                && first_missing(reached, txs[i as int].inputs, index as int);
                        assert(first_unapplicable(self@, txs, height, i as int, index as int));
                    }
                    return Err(e);
                },
                Ok(()) => {},
            }
            i += 1;
        }
        assert(txs.take(i as int) =~= txs);
        self.entries = candidate;
        self.dirty = false;
        Ok(())
    }

    /// Applies `tx` at `height`: for any but a coinbase, every input must
    /// name an entry that is still there when its turn comes, and is
    /// spent; then every output is recorded. Where an input is missing the
    /// set is left as it was.
    pub fn apply_transaction(&mut self, tx: &Transaction, height: u64) -> (out: Result<
        (),
        QtcError,
    >)
        ensures
            out is Ok <==> tx_applicable(old(self)@, tx@),
            out is Ok ==> final(self)@ == apply_tx(old(self)@, tx@, height) && final(self).is_dirty(),
            out matches Err(e) ==> final(self)@ == old(self)@ && final(self).is_dirty() == old(self).is_dirty() && exists|index: usize|
                e == QtcError::Transaction(TxReason::MissingUtxo { index }) && first_missing(
                    old(self)@,
                    tx@.inputs,
                    index as int,
                ),
            outpoints_distinct(final(self)@),
    {
        proof {
            use_type_invariant(&*self);
            lemma_apply_tx_distinct(self@, tx@, height);
        }
        let mut candidate = clone_entries(&self.entries);
        match apply_in_place(&mut candidate, tx, height) {
            Err(e) => Err(e),
            Ok(()) => {
                self.entries = candidate;
                self.dirty = true;
                Ok(())
            },
        }
    }

    /// Whether the set holds an entry for `outpoint`.
    pub fn has_utxo(&self, outpoint: &OutPoint) -> (found: bool)
        ensures
            found == lookup(self@, outpoint@) is Some,
    {
        find_entry(&self.entries, outpoint).is_some()
    }

    /// The entry for `outpoint`, borrowed.
    pub fn find(&self, outpoint: &OutPoint) -> (found: Option<&UtxoEntry>)
        ensures
            found is Some <==> lookup(self@, outpoint@) is Some,
            found matches Some(entry) ==> Some(entry@) == lookup(self@, outpoint@),
    {
        match find_entry(&self.entries, outpoint) {
            Some(i) => Some(&self.entries[i]),
            None => None,
        }
    }

    /// The entry for `outpoint`.
    pub fn get_utxo(&self, outpoint: &OutPoint) -> (found: Option<UtxoEntry>)
        ensures
            found is Some <==> lookup(self@, outpoint@) is Some,
            found matches Some(entry) ==> Some(entry@) == lookup(self@, outpoint@),
    {
        match find_entry(&self.entries, outpoint) {
            Some(i) => Some(self.entries[i].clone()),
            None => None,
        }
    }

    /// The sum of the values of the entries that belong to `address`, or
    /// an error where it does not fit in 64 bits.
    pub fn get_balance(&self, address: &str) -> (out: Result<u64, QtcError>)
        ensures
            out is Ok <==> balance_of(self@, address@) <= u64::MAX,
            out matches Ok(balance) ==> balance == balance_of(self@, address@),
            out matches Err(e) ==> e == QtcError::Transaction(TxReason::ValueOverflow),
    {
        let ghost all = self@;
        let mut total: u128 = 0;
        let mut i: usize = 0;
        while i < self.entries.len()
            invariant
                i <= self.entries@.len(),
                all == entries_view(self.entries@),
                total == balance_of(all.take(i as int), address@),
                total <= i * 0x1_0000_0000_0000_0000,
            decreases self.entries@.len() - i,
        {
            proof {
                lemma_entries_step(all, i as int);
            }
            if entry_pays_to(&self.entries[i], address) {
                total = total + self.entries[i].value as u128;
            }
            i += 1;
        }
        assert(all.take(i as int) =~= all);
        if total > u64::MAX as u128 {
            Err(QtcError::Transaction(TxReason::ValueOverflow))
        } else {
            Ok(total as u64)
        }
    }

    /// The entries that belong to `address`, in the order in which they
    /// were recorded, each as transaction hash, output index and value.
    pub fn get_utxos(&self, address: &str) -> (found: Vec<(Hash256, u32, u64)>)
        ensures
            utxo_refs_view(found@) == outputs_of(self@, address@),
    {
        let ghost all = self@;
        let mut found: Vec<(Hash256, u32, u64)> = Vec::new();
        let mut i: usize = 0;
        while i < self.entries.len()
            invariant
                i <= self.entries@.len(),
                all == entries_view(self.entries@),
                utxo_refs_view(found@) == outputs_of(all.take(i as int), address@),
            decreases self.entries@.len() - i,
        {
            proof {
                lemma_entries_step(all, i as int);
            }
            let ghost before = utxo_refs_view(found@);
            if entry_pays_to(&self.entries[i], address) {
                let entry = &self.entries[i];
                found.push((entry.txid, entry.vout, entry.value));
                assert(utxo_refs_view(found@) =~= before.push(
                    (entry@.txid, entry@.vout, entry@.value),
                ));
            }
            i += 1;
        }
        assert(all.take(i as int) =~= all);
        found
    }

    /// Selects from the entries that belong to `address` the largest
    /// values first until they are worth `amount`, or all where they are
    /// not; at least one where there is any.
    pub fn find_spendable_outputs(&self, address: &str, amount: u64) -> (out: Result<
        (u64, Vec<(Hash256, u32, u64)>),
        QtcError,
    >)
        ensures
            out matches Ok(found) ==> found.0 == sum_values(utxo_refs_view(found.1@)) && exists|
                left: Seq<(Seq<u8>, u32, u64)>,
            |
                is_largest_first_selection(
                    outputs_of(self@, address@),
                    amount,
                    utxo_refs_view(found.1@),
                    left,
                ),
            out matches Err(e) ==> e == QtcError::Transaction(TxReason::ValueOverflow)
                && sum_values(outputs_of(self@, address@)) > u64::MAX,
    {
        select_largest_first(self.get_utxos(address), amount)
    }

    /// Whether `tx` can be paid for from the set: a coinbase always; any
    /// other where each input names an entry and together they are worth
    /// at least the outputs.
    pub fn validate_transaction(&self, tx: &Transaction) -> (out: Result<bool, QtcError>)
        ensures
            out is Ok <==> tx@.is_coinbase() || (inputs_known(self@, tx@.inputs) && input_value(
                self@,
                tx@.inputs,
            ) <= u64::MAX && tx@.total_output_value() <= input_value(self@, tx@.inputs)),
            out matches Ok(valid) ==> valid,
            out matches Err(e) ==> {
                ||| exists|index: usize|
                    e == QtcError::Transaction(TxReason::MissingUtxo { index }) && 0 <= index
                        < tx@.inputs.len() && lookup(
                        self@,
                        tx@.inputs[index as int].previous_output,
                    ) is None
                ||| e == QtcError::Transaction(TxReason::ValueOverflow) && inputs_known(
                    self@,
                    tx@.inputs,
                ) && (input_value(self@, tx@.inputs) > u64::MAX || tx@.total_output_value()
                    > u64::MAX)
                ||| e == QtcError::Transaction(TxReason::InputsBelowOutputs) && inputs_known(
                    self@,
                    tx@.inputs,
                ) && input_value(self@, tx@.inputs) < tx@.total_output_value()
            },
    {
        if tx.is_coinbase() {
            return Ok(true);
        }
        let total_input = match self.total_input_value(tx) {
            Err(e) => {
                return Err(e);
            },
            Ok(v) => v,
        };
        let total_output = match tx.checked_total_output_value() {
            None => {
                return Err(QtcError::Transaction(TxReason::ValueOverflow));
            },
            Some(v) => v,
        };
        if total_input < total_output {
            return Err(QtcError::Transaction(TxReason::InputsBelowOutputs));
        }
        Ok(true)
    }

    /// The sum of the values of the entries that the inputs of `tx` name.
    /// The first input without entry is reported; so is a sum that does not
    /// fit in 64 bits.
    pub fn total_input_value(&self, tx: &Transaction) -> (out: Result<u64, QtcError>)
        ensures
            out is Ok <==> inputs_known(self@, tx@.inputs) && input_value(self@, tx@.inputs)
                <= u64::MAX,
            out matches Ok(value) ==> value == input_value(self@, tx@.inputs),
            out matches Err(e) ==> {
                ||| exists|index: usize|
                    e == QtcError::Transaction(TxReason::MissingUtxo { index }) && 0 <= index
                        < tx@.inputs.len() && lookup(
                        self@,
                        tx@.inputs[index as int].previous_output,
                    ) is None && forall|j: int|
                        0 <= j < index ==> lookup(
                            self@,
                            (#[trigger] tx@.inputs[j]).previous_output,
                        ) is Some
                ||| e == QtcError::Transaction(TxReason::ValueOverflow) && inputs_known(
                    self@,
                    tx@.inputs,
                ) && input_value(self@, tx@.inputs) > u64::MAX
            },
    {
        let ghost inputs = tx@.inputs;
        let mut total: u128 = 0;
        let mut i: usize = 0;
        while i < tx.inputs.len()
            invariant
                i <= tx.inputs@.len(),
                inputs == tx@.inputs,
                inputs.len() == tx.inputs@.len(),
                total == input_value(self@, inputs.take(i as int)),
                total <= i * 0x1_0000_0000_0000_0000,
                forall|j: int|
                    0 <= j < i ==> lookup(self@, (#[trigger] inputs[j]).previous_output) is Some,
            decreases tx.inputs@.len() - i,
        {
            proof {
                lemma_inputs_step(inputs, i as int);
            }
            match find_entry(&self.entries, &tx.inputs[i].previous_output) {
                None => {
                    return Err(QtcError::Transaction(TxReason::MissingUtxo { index: i }));
                },
                Some(at) => {
                    total = total + self.entries[at].value as u128;
                },
            }
            i += 1;
        }
        assert(inputs.take(i as int) =~= inputs);
        if total > u64::MAX as u128 {
            Err(QtcError::Transaction(TxReason::ValueOverflow))
        } else {
            Ok(total as u64)
        }
    }

    /// Marks the set as flushed. The entries stay as they are.
    pub fn flush(&mut self) -> (out: Result<(), QtcError>)
        ensures
            out is Ok,
            final(self)@ == old(self)@,
            !final(self).is_dirty(),
    {
        proof {
            use_type_invariant(&*self);
        }
        self.dirty = false;
        Ok(())
    }

    /// The sum of the values of all entries, or an error where it does not
    /// fit in 64 bits.
    pub fn get_total_supply(&self) -> (out: Result<u64, QtcError>)
        ensures
            out is Ok <==> total_value(self@) <= u64::MAX,
            out matches Ok(total) ==> total == total_value(self@),
            out matches Err(e) ==> e == QtcError::Transaction(TxReason::ValueOverflow),
    {
        let ghost all = self@;
        let mut total: u128 = 0;
        let mut i: usize = 0;
        while i < self.entries.len()
            invariant
                i <= self.entries@.len(),
                all == entries_view(self.entries@),
                total == total_value(all.take(i as int)),
                total <= i * 0x1_0000_0000_0000_0000,
            decreases self.entries@.len() - i,
        {
            proof {
                lemma_entries_step(all, i as int);
            }
            total = total + self.entries[i].value as u128;
            i += 1;
        }
        assert(all.take(i as int) =~= all);
        if total > u64::MAX as u128 {
            Err(QtcError::Transaction(TxReason::ValueOverflow))
        } else {
            Ok(total as u64)
        }
    }

    /// The number of entries, which is the number of unspent outputs: no
    /// outpoint has two entries.
    pub fn get_utxo_count(&self) -> (count: usize)
        ensures
            count == self@.len(),
            outpoints_distinct(self@),
    {
        proof {
            use_type_invariant(self);
        }
        self.entries.len()
    }
}

/// The sum of the values of a sequence of outpoint-and-value triples.
pub open spec fn sum_values(refs: Seq<(Seq<u8>, u32, u64)>) -> int
    decreases refs.len(),
{
    if refs.len() == 0 {
        0
    } else {
        sum_values(refs.drop_last()) + refs.last().2
    }
}

/// Whether the values do not rise along the sequence.
pub open spec fn values_descend(refs: Seq<(Seq<u8>, u32, u64)>) -> bool {
    forall|i: int| 0 <= i < refs.len() - 1 ==> (#[trigger] refs[i]).2 >= refs[i + 1].2
}

/// Whether `selected` with `left` is how the largest-first selection for
/// `amount` parts `candidates`: the two hold what the candidates hold; the
/// selected values do not rise, and none left over is worth more than the
/// last selected; the selection stops as soon as it is worth the amount,
/// and only then or when nothing is left; it takes one where there is
/// any, even for an amount of nothing.
pub open spec fn is_largest_first_selection(
    candidates: Seq<(Seq<u8>, u32, u64)>,
    amount: u64,
    selected: Seq<(Seq<u8>, u32, u64)>,
    left: Seq<(Seq<u8>, u32, u64)>,
) -> bool {
    &&& selected.to_multiset().add(left.to_multiset()) == candidates.to_multiset()
    &&& values_descend(selected)
    &&& forall|i: int, j: int|
        0 <= i < selected.len() && 0 <= j < left.len() ==> (#[trigger] selected[i]).2 >= (
        #[trigger] left[j]).2
    &&& left.len() == 0 || (selected.len() > 0 && sum_values(selected) >= amount)
    &&& selected.len() > 1 ==> sum_values(selected.drop_last()) < amount
}

/// Selects from `candidates` the largest values first until they are
/// worth `amount`, or all where they are not; at least one where there is
/// any. Gives what the selected are worth and the selected in the order
/// in which they were taken, or an error where their worth does not fit in
/// 64 bits.
pub fn select_largest_first(candidates: Vec<(Hash256, u32, u64)>, amount: u64) -> (out: Result<
    (u64, Vec<(Hash256, u32, u64)>),
    QtcError,
>)
    ensures
        out matches Ok(found) ==> found.0 == sum_values(utxo_refs_view(found.1@)) && exists|
            left: Seq<(Seq<u8>, u32, u64)>,
        |
            is_largest_first_selection(
                utxo_refs_view(candidates@),
                amount,
                utxo_refs_view(found.1@),
                left,
            ),
        out matches Err(e) ==> e == QtcError::Transaction(TxReason::ValueOverflow) && sum_values(
            utxo_refs_view(candidates@),
        ) > u64::MAX,
{
    let ghost all = utxo_refs_view(candidates@);
    let mut remaining = candidates;
    let mut selected: Vec<(Hash256, u32, u64)> = Vec::new();
    let mut accumulated: u64 = 0;
    proof {
        assert(utxo_refs_view(selected@) =~= Seq::<(Seq<u8>, u32, u64)>::empty());
        assert(utxo_refs_view(selected@).to_multiset().add(
            utxo_refs_view(remaining@).to_multiset(),
        ) =~= all.to_multiset()) by {
            vstd::seq_lib::lemma_multiset_commutative(
                utxo_refs_view(selected@),
                utxo_refs_view(remaining@),
            );
            assert(utxo_refs_view(selected@) + utxo_refs_view(remaining@) =~= all);
        }
        lemma_sum_values_parts(utxo_refs_view(selected@), utxo_refs_view(remaining@), all);
    }
    while remaining.len() > 0
        invariant
            all == utxo_refs_view(candidates@),
            utxo_refs_view(selected@).to_multiset().add(utxo_refs_view(remaining@).to_multiset())
                == all.to_multiset(),
            sum_values(utxo_refs_view(selected@)) + sum_values(utxo_refs_view(remaining@))
                == sum_values(all),
            values_descend(utxo_refs_view(selected@)),
            forall|i: int, j: int|
                0 <= i < selected@.len() && 0 <= j < remaining@.len() ==> (
                #[trigger] utxo_refs_view(selected@)[i]).2 >= (#[trigger] utxo_refs_view(
                    remaining@,
                )[j]).2,
            accumulated == sum_values(utxo_refs_view(selected@)),
            selected@.len() > 0 ==> accumulated < amount,
            selected@.len() > 0 ==> sum_values(utxo_refs_view(selected@)) < amount,
        decreases remaining@.len(),
    {
        let ghost sel_before = utxo_refs_view(selected@);
        let ghost rem_before = utxo_refs_view(remaining@);
        // The largest of what remains, the first of several.
        let mut best: usize = 0;
        let mut k: usize = 1;
        while k < remaining.len()
            invariant
                best < k <= remaining@.len(),
                rem_before == utxo_refs_view(remaining@),
                forall|j: int| 0 <= j < k ==> rem_before[best as int].2 >= (#[trigger] rem_before[j]).2,
            decreases remaining@.len() - k,
        {
            if remaining[k].2 > remaining[best].2 {
                best = k;
            }
            k += 1;
        }
        let picked = remaining.remove(best);
        proof {
            assert(utxo_refs_view(remaining@) =~= rem_before.remove(best as int));
            assert((picked.0@, picked.1, picked.2) == rem_before[best as int]);
            lemma_sum_values_remove(rem_before, best as int);
        }
        let next = match accumulated.checked_add(picked.2) {
            Some(v) => v,
            None => {
                proof {
                    assert(sum_values(sel_before) + sum_values(rem_before) == sum_values(all));
                    lemma_sum_values_nonnegative(utxo_refs_view(remaining@));
                }
                return Err(QtcError::Transaction(TxReason::ValueOverflow));
            },
        };
        selected.push(picked);
        accumulated = next;
        proof {
            assert(utxo_refs_view(selected@) =~= sel_before.push(rem_before[best as int]));
            lemma_selection_step(sel_before, rem_before, best as int, all);
        }
        if accumulated >= amount {
            proof {
                assert(is_largest_first_selection(
                    all,
                    amount,
                    utxo_refs_view(selected@),
                    utxo_refs_view(remaining@),
                ));
            }
            return Ok((accumulated, selected));
        }
    }
    proof {
        let sel = utxo_refs_view(selected@);
        if sel.len() > 1 {
            lemma_sum_values_prefix(sel);
        }
        assert(is_largest_first_selection(all, amount, sel, utxo_refs_view(remaining@)));
    }
    Ok((accumulated, selected))
}

/// Taking the largest of what is left keeps the selection in order, above
/// what is left, and together with it what the candidates hold.
pub proof fn lemma_selection_step(
    selected: Seq<(Seq<u8>, u32, u64)>,
    left: Seq<(Seq<u8>, u32, u64)>,
    best: int,
    all: Seq<(Seq<u8>, u32, u64)>,
)
    requires
        0 <= best < left.len(),
        selected.to_multiset().add(left.to_multiset()) == all.to_multiset(),
        values_descend(selected),
        forall|i: int, j: int|
            0 <= i < selected.len() && 0 <= j < left.len() ==> (#[trigger] selected[i]).2 >= (
            #[trigger] left[j]).2,
        forall|j: int| 0 <= j < left.len() ==> left[best].2 >= (#[trigger] left[j]).2,
    ensures
        selected.push(left[best]).to_multiset().add(left.remove(best).to_multiset())
            == all.to_multiset(),
        values_descend(selected.push(left[best])),
        forall|i: int, j: int|
            0 <= i < selected.len() + 1 && 0 <= j < left.len() - 1 ==> (#[trigger] selected.push(
                left[best],
            )[i]).2 >= (#[trigger] left.remove(best)[j]).2,
        selected.push(left[best]).drop_last() == selected,
{
    broadcast use vstd::multiset::group_multiset_axioms;

    let picked = left[best];
    let sel_after = selected.push(picked);
    let rem_after = left.remove(best);
    vstd::seq_lib::to_multiset_remove(left, best);
    vstd::seq_lib::to_multiset_build(selected, picked);
    left.to_multiset_ensures();
    assert(left.contains(picked));
    assert(left.to_multiset().count(picked) > 0);
    assert(sel_after.to_multiset().add(rem_after.to_multiset()) =~= selected.to_multiset().add(
        left.to_multiset(),
    ));
    assert(sel_after.drop_last() =~= selected);
    assert forall|i: int| 0 <= i < sel_after.len() - 1 implies (#[trigger] sel_after[i]).2
        >= sel_after[i + 1].2 by {
        if i + 1 < selected.len() {
            assert(sel_after[i] == selected[i] && sel_after[i + 1] == selected[i + 1]);
        } else {
            assert(sel_after[i] == selected[i]);
            assert(selected[i].2 >= left[best].2);
        }
    }
    assert forall|i: int, j: int|
        0 <= i < selected.len() + 1 && 0 <= j < left.len() - 1 implies (#[trigger] sel_after[i]).2
        >= (#[trigger] rem_after[j]).2 by {
        let source = if j < best {
            j
        } else {
            j + 1
        };
        assert(rem_after[j] == left[source]);
        if i < selected.len() {
            assert(sel_after[i] == selected[i]);
            assert(selected[i].2 >= left[source].2);
        } else {
            assert(left[best].2 >= left[source].2);
        }
    }
}

/// The sum of values is never negative.
pub proof fn lemma_sum_values_nonnegative(refs: Seq<(Seq<u8>, u32, u64)>)
    ensures
        sum_values(refs) >= 0,
    decreases refs.len(),
{
    if refs.len() > 0 {
        lemma_sum_values_nonnegative(refs.drop_last());
    }
}

/// Without its last the sequence is worth no more.
pub proof fn lemma_sum_values_prefix(refs: Seq<(Seq<u8>, u32, u64)>)
    requires
        refs.len() > 0,
    ensures
        sum_values(refs.drop_last()) <= sum_values(refs),
{
}

/// Two sequences that make up a third are worth together what it is
/// worth.
pub proof fn lemma_sum_values_parts(
    a: Seq<(Seq<u8>, u32, u64)>,
    b: Seq<(Seq<u8>, u32, u64)>,
    whole: Seq<(Seq<u8>, u32, u64)>,
)
    requires
        a + b == whole,
    ensures
        sum_values(a) + sum_values(b) == sum_values(whole),
    decreases b.len(),
{
    if b.len() == 0 {
        assert(a + b =~= a);
    } else {
        assert((a + b).drop_last() =~= a + b.drop_last());
        lemma_sum_values_parts(a, b.drop_last(), (a + b).drop_last());
    }
}

/// Without one of its entries a sequence is worth that entry's value less.
pub proof fn lemma_sum_values_remove(refs: Seq<(Seq<u8>, u32, u64)>, i: int)
    requires
        0 <= i < refs.len(),
    ensures
        sum_values(refs.remove(i)) + refs[i].2 == sum_values(refs),
    decreases refs.len(),
{
    if i == refs.len() - 1 {
        assert(refs.remove(i) =~= refs.drop_last());
    } else {
        assert(refs.remove(i).drop_last() =~= refs.drop_last().remove(i));
        assert(refs.remove(i).last() == refs.last());
        lemma_sum_values_remove(refs.drop_last(), i);
    }
}

/// The models of a sequence of outpoint-and-value triples.
pub open spec fn utxo_refs_view(refs: Seq<(Hash256, u32, u64)>) -> Seq<(Seq<u8>, u32, u64)> {
    refs.map_values(|r: (Hash256, u32, u64)| (r.0@, r.1, r.2))
}

/// Whether a script is the one that an address text is paid with.
pub fn script_pays_address(script: &[u8], address: &str) -> (matches: bool)
    ensures
        matches == script_matches_address(script@, address@),
{
    if script.len() < 25 {
        return false;
    }
    if script[0] == OP_DUP && script[1] == OP_HASH160 && script[2] == 20 {
        let script_hash = vstd::slice::slice_subrange(script, 3, 23);
        let address_hash = Hash256::hash(address.as_bytes());
        let head = vstd::slice::slice_subrange(address_hash.as_bytes().as_slice(), 0, 20);
        return bytes_equal(script_hash, head);
    }
    false
}

/// Whether an entry belongs to an address text.
pub fn entry_pays_to(entry: &UtxoEntry, address: &str) -> (belongs: bool)
    ensures
        belongs == pays_to(entry@, address@),
{
    String::from_str(address) == entry.address || script_pays_address(
        entry.script_pubkey.as_slice(),
        address,
    )
}

/// After the entries for one outpoint were removed, that outpoint names
/// nothing and every other names what it named.
pub proof fn lemma_lookup_without(
    entries: Seq<UtxoEntryView>,
    removed: OutPointView,
    outpoint: OutPointView,
)
    ensures
        lookup(without_outpoint(entries, removed), outpoint) == if removed == outpoint {
            None
        } else {
            lookup(entries, outpoint)
        },
    decreases entries.len(),
{
    if entries.len() > 0 {
        let rest = entries.drop_last();
        lemma_lookup_without(rest, removed, outpoint);
        if entries.last().outpoint() != removed {
            assert(without_outpoint(rest, removed).push(entries.last()).drop_last()
                =~= without_outpoint(rest, removed));
        }
    }
}

/// Spending inputs leaves what every other outpoint names.
pub proof fn lemma_lookup_after_spend(
    entries: Seq<UtxoEntryView>,
    inputs: Seq<TxInputView>,
    outpoint: OutPointView,
)
    requires
        forall|j: int| 0 <= j < inputs.len() ==> (#[trigger] inputs[j]).previous_output != outpoint,
    ensures
        lookup(spend_inputs(entries, inputs), outpoint) == lookup(entries, outpoint),
    decreases inputs.len(),
{
    if inputs.len() > 0 {
        let rest = inputs.drop_last();
        assert forall|j: int| 0 <= j < rest.len() implies (#[trigger] rest[j]).previous_output
            != outpoint by {
            assert(rest[j] == inputs[j]);
        }
        lemma_lookup_after_spend(entries, rest, outpoint);
        lemma_lookup_without(spend_inputs(entries, rest), inputs.last().previous_output, outpoint);
    }
}

/// Inputs that each name an entry and no two of which name the same are
/// available.
pub proof fn lemma_known_distinct_available(entries: Seq<UtxoEntryView>, inputs: Seq<TxInputView>)
    requires
        inputs_known(entries, inputs),
        forall|i: int, j: int|
            0 <= i < j < inputs.len() ==> (#[trigger] inputs[i]).previous_output != (
            #[trigger] inputs[j]).previous_output,
    ensures
        inputs_available(entries, inputs),
    decreases inputs.len(),
{
    if inputs.len() > 0 {
        let rest = inputs.drop_last();
        let last = inputs.last();
        assert forall|i: int| 0 <= i < rest.len() implies lookup(
            entries,
            (#[trigger] rest[i]).previous_output,
        ) is Some by {
            assert(rest[i] == inputs[i]);
        }
        assert forall|i: int, j: int| 0 <= i < j < rest.len() implies (
        #[trigger] rest[i]).previous_output != (#[trigger] rest[j]).previous_output by {
            assert(rest[i] == inputs[i]);
            assert(rest[j] == inputs[j]);
        }
        lemma_known_distinct_available(entries, rest);
        assert forall|j: int| 0 <= j < rest.len() implies (#[trigger] rest[j]).previous_output
            != last.previous_output by {
            assert(rest[j] == inputs[j]);
            assert(last == inputs[inputs.len() - 1]);
        }
        lemma_lookup_after_spend(entries, rest, last.previous_output);
        assert(last == inputs[inputs.len() - 1]);
    }
}

/// Transactions that can be applied in order can be applied up to any
/// point.
pub proof fn lemma_txs_applicable_prefix(
    entries: Seq<UtxoEntryView>,
    txs: Seq<TransactionView>,
    height: u64,
    n: int,
)
    requires
        0 <= n <= txs.len(),
        txs_applicable(entries, txs, height),
    ensures
        txs_applicable(entries, txs.take(n), height),
    decreases txs.len() - n,
{
    if n < txs.len() {
        let shorter = txs.drop_last();
        assert(shorter.take(n) =~= txs.take(n));
        lemma_txs_applicable_prefix(entries, shorter, height, n);
    } else {
        assert(txs.take(n) =~= txs);
    }
}

/// A single coinbase can always be applied.
pub proof fn lemma_coinbase_only_applicable(
    entries: Seq<UtxoEntryView>,
    txs: Seq<TransactionView>,
    height: u64,
)
    requires
        txs.len() == 1,
        txs[0].is_coinbase(),
    ensures
        txs_applicable(entries, txs, height),
{
    let rest = txs.drop_last();
    assert(rest.len() == 0);
    assert(txs_applicable(entries, rest, height));
    assert(txs.last() == txs[0]);
    assert(tx_applicable(apply_txs(entries, rest, height), txs.last()));
}

/// Once a transaction cannot be applied, the transactions as a whole
/// cannot.
pub proof fn lemma_txs_unapplicable_from(
    entries: Seq<UtxoEntryView>,
    txs: Seq<TransactionView>,
    height: u64,
    index: int,
)
    requires
        0 <= index < txs.len(),
        !tx_applicable(apply_txs(entries, txs.take(index), height), txs[index]),
    ensures
        !txs_applicable(entries, txs, height),
    decreases txs.len() - index,
{
    if index == txs.len() - 1 {
        assert(txs.take(index) =~= txs.drop_last());
    } else {
        let shorter = txs.drop_last();
        assert(shorter.take(index) =~= txs.take(index));
        lemma_txs_unapplicable_from(entries, shorter, height, index);
    }
}

/// Whether no outpoint has two entries.
pub open spec fn outpoints_distinct(entries: Seq<UtxoEntryView>) -> bool {
    forall|i: int, j: int|
        0 <= i < j < entries.len() ==> (#[trigger] entries[i]).outpoint() != (
        #[trigger] entries[j]).outpoint()
}

/// Whether some entry is recorded for an outpoint.
pub open spec fn has_outpoint(entries: Seq<UtxoEntryView>, outpoint: OutPointView) -> bool {
    exists|i: int| 0 <= i < entries.len() && (#[trigger] entries[i]).outpoint() == outpoint
}

/// What is left after the entries for an outpoint were taken out was there
/// before, and is not for that outpoint.
pub proof fn lemma_without_keeps_others(
    entries: Seq<UtxoEntryView>,
    outpoint: OutPointView,
    other: OutPointView,
)
    ensures
        has_outpoint(without_outpoint(entries, outpoint), other) ==> other != outpoint
            && has_outpoint(entries, other),
    decreases entries.len(),
{
    if entries.len() > 0 {
        let rest = entries.drop_last();
        let kept = without_outpoint(rest, outpoint);
        lemma_without_keeps_others(rest, outpoint, other);
        if has_outpoint(without_outpoint(entries, outpoint), other) {
            let i = choose|i: int|
                0 <= i < without_outpoint(entries, outpoint).len() && (
                #[trigger] without_outpoint(entries, outpoint)[i]).outpoint() == other;
            if i < kept.len() {
                assert(kept[i].outpoint() == other);
                let j = choose|j: int| 0 <= j < rest.len() && (#[trigger] rest[j]).outpoint() == other;
                assert(entries[j].outpoint() == other);
            } else {
                assert(entries[entries.len() - 1].outpoint() == other);
            }
        }
    }
}

/// Taking the entries for an outpoint out leaves no outpoint with two
/// entries where none had two before.
pub proof fn lemma_without_distinct(entries: Seq<UtxoEntryView>, outpoint: OutPointView)
    requires
        outpoints_distinct(entries),
    ensures
        outpoints_distinct(without_outpoint(entries, outpoint)),
    decreases entries.len(),
{
    if entries.len() > 0 {
        let rest = entries.drop_last();
        let kept = without_outpoint(rest, outpoint);
        assert(outpoints_distinct(rest)) by {
            assert forall|i: int, j: int| 0 <= i < j < rest.len() implies (#[trigger] rest[i]).outpoint()
                != (#[trigger] rest[j]).outpoint() by {
                assert(entries[i].outpoint() != entries[j].outpoint());
            }
        }
        lemma_without_distinct(rest, outpoint);
        if entries.last().outpoint() != outpoint {
            let after = kept.push(entries.last());
            assert forall|i: int, j: int| 0 <= i < j < after.len() implies (#[trigger] after[i]).outpoint()
                != (#[trigger] after[j]).outpoint() by {
                if j < kept.len() {
                    assert(kept[i].outpoint() != kept[j].outpoint());
                } else {
                    lemma_without_keeps_others(rest, outpoint, entries.last().outpoint());
                    if kept[i].outpoint() == entries.last().outpoint() {
                        assert(has_outpoint(kept, entries.last().outpoint()));
                        let k = choose|k: int|
                            0 <= k < rest.len() && (#[trigger] rest[k]).outpoint()
                                == entries.last().outpoint();
                        assert(entries[k].outpoint() != entries[entries.len() - 1].outpoint());
                    }
                }
            }
        }
    }
}

/// Recording an entry in place of whatever was recorded for its outpoint
/// leaves no outpoint with two entries where none had two before.
pub proof fn lemma_with_entry_distinct(entries: Seq<UtxoEntryView>, entry: UtxoEntryView)
    requires
        outpoints_distinct(entries),
    ensures
        outpoints_distinct(with_entry(entries, entry)),
{
    let kept = without_outpoint(entries, entry.outpoint());
    let after = with_entry(entries, entry);
    lemma_without_distinct(entries, entry.outpoint());
    assert forall|i: int, j: int| 0 <= i < j < after.len() implies (#[trigger] after[i]).outpoint()
        != (#[trigger] after[j]).outpoint() by {
        if j < kept.len() {
            assert(kept[i].outpoint() != kept[j].outpoint());
        } else {
            lemma_without_keeps_others(entries, entry.outpoint(), entry.outpoint());
            if kept[i].outpoint() == entry.outpoint() {
                assert(has_outpoint(kept, entry.outpoint()));
            }
        }
    }
}

/// Applying a transaction leaves no outpoint with two entries where none
/// had two before.
pub proof fn lemma_apply_tx_distinct(entries: Seq<UtxoEntryView>, tx: TransactionView, height: u64)
    requires
        outpoints_distinct(entries),
    ensures
        outpoints_distinct(apply_tx(entries, tx, height)),
{
    let spent = if tx.is_coinbase() {
        entries
    } else {
        spend_inputs(entries, tx.inputs)
    };
    if !tx.is_coinbase() {
        lemma_spend_inputs_distinct(entries, tx.inputs);
    }
    lemma_add_outputs_distinct(spent, tx, height, tx.outputs.len());
}

/// Spending inputs leaves no outpoint with two entries where none had two
/// before.
pub proof fn lemma_spend_inputs_distinct(entries: Seq<UtxoEntryView>, inputs: Seq<TxInputView>)
    requires
        outpoints_distinct(entries),
    ensures
        outpoints_distinct(spend_inputs(entries, inputs)),
    decreases inputs.len(),
{
    if inputs.len() > 0 {
        lemma_spend_inputs_distinct(entries, inputs.drop_last());
        lemma_without_distinct(
            spend_inputs(entries, inputs.drop_last()),
            inputs.last().previous_output,
        );
    }
}

/// Recording outputs leaves no outpoint with two entries where none had
/// two before.
pub proof fn lemma_add_outputs_distinct(
    entries: Seq<UtxoEntryView>,
    tx: TransactionView,
    height: u64,
    n: nat,
)
    requires
        outpoints_distinct(entries),
    ensures
        outpoints_distinct(add_outputs(entries, tx, height, n)),
    decreases n,
{
    if n > 0 {
        lemma_add_outputs_distinct(entries, tx, height, (n - 1) as nat);
        lemma_with_entry_distinct(
            add_outputs(entries, tx, height, (n - 1) as nat),
            created_entry(tx, n - 1, height),
        );
    }
}

/// The set of unspent outputs is a mapping: applying transactions one
/// after another, from the empty set or from any set in which no outpoint
/// has two entries, never leaves an outpoint with two entries.
pub proof fn lemma_apply_txs_distinct(
    entries: Seq<UtxoEntryView>,
    txs: Seq<TransactionView>,
    height: u64,
)
    requires
        outpoints_distinct(entries),
    ensures
        outpoints_distinct(apply_txs(entries, txs, height)),
    decreases txs.len(),
{
    if txs.len() > 0 {
        lemma_apply_txs_distinct(entries, txs.drop_last(), height);
        lemma_apply_tx_distinct(apply_txs(entries, txs.drop_last(), height), txs.last(), height);
    }
}

/// The fee of a transaction against unspent outputs, where it can be
/// told: nothing for a coinbase; for any other what its inputs are worth
/// over its outputs, where every input names an entry, both sums fit in
/// 64 bits and the inputs are worth at least the outputs.
pub open spec fn fee_in(tx: TransactionView, entries: Seq<UtxoEntryView>) -> Option<int> {
    if tx.is_coinbase() {
        Some(0int)
    } else if inputs_known(entries, tx.inputs) && input_value(entries, tx.inputs) <= u64::MAX
        && tx.total_output_value() <= u64::MAX && input_value(entries, tx.inputs)
        >= tx.total_output_value() {
        Some(input_value(entries, tx.inputs) - tx.total_output_value())
    } else {
        None
    }
}

/// The fees of the first `n` transactions of a block at `height`, the
/// first of them counting nothing, where they can be told: each
/// transaction has its fee against the outputs that the ones before it
/// leave unspent, and can be applied to them; the sum fits in 64 bits.
pub open spec fn fees_in(
    entries: Seq<UtxoEntryView>,
    txs: Seq<TransactionView>,
    height: u64,
    n: nat,
) -> Option<int>
    decreases n,
{
    if n == 0 {
        Some(0int)
    } else {
        let found = apply_txs(entries, txs.take(n - 1), height);
        let fee = if n == 1 {
            Some(0int)
        } else {
            fee_in(txs[n - 1], found)
        };
        match (fees_in(entries, txs, height, (n - 1) as nat), fee) {
            (Some(before), Some(fee)) => if before + fee <= u64::MAX && tx_applicable(
                found,
                txs[n - 1],
            ) {
                Some(before + fee)
            } else {
                None
            },
            _ => None,
        }
    }
}

/// Once the fees cannot be told they cannot be told of more transactions.
pub proof fn lemma_fees_in_stops(
    entries: Seq<UtxoEntryView>,
    txs: Seq<TransactionView>,
    height: u64,
    n: nat,
    m: nat,
)
    requires
        n <= m,
        fees_in(entries, txs, height, n) is None,
    ensures
        fees_in(entries, txs, height, m) is None,
    decreases m - n,
{
    if n < m {
        lemma_fees_in_stops(entries, txs, height, n, (m - 1) as nat);
    }
}

impl Transaction {
    /// What the inputs are worth among the unspent outputs, where every
    /// input names one and the sum fits in 64 bits.
    pub fn total_input_value(&self, utxos: &UtxoSet) -> (value: Option<u64>)
        ensures
            value is Some <==> inputs_known(utxos@, self@.inputs) && input_value(
                utxos@,
                self@.inputs,
            ) <= u64::MAX,
            value matches Some(v) ==> v == input_value(utxos@, self@.inputs),
    {
        match utxos.total_input_value(self) {
            Ok(v) => Some(v),
            Err(_) => None,
        }
    }

    /// The fee against the unspent outputs: what the inputs are worth over
    /// the outputs, and nothing for a coinbase. There is none where an
    /// input names no unspent output, a sum does not fit in 64 bits, or the
    /// inputs are worth less than the outputs.
    pub fn fee(&self, utxos: &UtxoSet) -> (fee: Option<u64>)
        ensures
            fee is Some <==> fee_in(self@, utxos@) is Some,
            fee matches Some(f) ==> f == fee_in(self@, utxos@)->0,
    {
        if self.is_coinbase() {
            return Some(0);
        }
        let paid = match self.checked_total_output_value() {
            None => {
                return None;
            },
            Some(v) => v,
        };
        let brought = match self.total_input_value(utxos) {
            None => {
                return None;
            },
            Some(v) => v,
        };
        if brought < paid {
            return None;
        }
        Some(brought - paid)
    }
}

impl Block {
    /// The fees of the block against the outputs that are unspent before
    /// it: the sum of the fees of all but the first transaction, each
    /// against the outputs that the transactions before it leave unspent.
    /// There is none where a transaction has no fee or cannot be applied,
    /// or the sum does not fit in 64 bits.
    pub fn total_fees(&self, utxos: &UtxoSet) -> (fees: Option<u64>)
        ensures
            fees is Some <==> fees_in(
                utxos@,
                self@.transactions,
                self@.header.height,
                self@.transactions.len(),
            ) is Some,
            fees matches Some(total) ==> total == fees_in(
                utxos@,
                self@.transactions,
                self@.header.height,
                self@.transactions.len(),
            )->0,
    {
        let ghost txs = self@.transactions;
        let ghost start = utxos@;
        let height = self.header.height;
        let mut found = utxos.clone();
        let mut total: u64 = 0;
        let mut i: usize = 0;
        assert(txs.take(0) =~= Seq::<TransactionView>::empty());
        while i < self.transactions.len()
            invariant
                i <= self.transactions@.len(),
                txs == self@.transactions,
                txs.len() == self.transactions@.len(),
                start == utxos@,
                height == self@.header.height,
                found@ == apply_txs(start, txs.take(i as int), height),
                fees_in(start, txs, height, i as nat) == Some(total as int),
            decreases self.transactions@.len() - i,
        {
            assert(self.transactions@[i as int]@ == txs[i as int]);
            assert(txs.take(i as int + 1).drop_last() =~= txs.take(i as int));
            assert(txs.take(i as int + 1).last() == txs[i as int]);
            let fee = if i == 0 {
                Some(0)
            } else {
                self.transactions[i].fee(&found)
            };
            let next = match fee {
                None => None,
                Some(f) => total.checked_add(f),
            };
            let applied = found.apply_transaction(&self.transactions[i], height);
            match (next, applied) {
                (Some(sum), Ok(())) => {
                    total = sum;
                },
                _ => {
                    proof {
                        assert(fees_in(start, txs, height, (i + 1) as nat) is None);
                        lemma_fees_in_stops(start, txs, height, (i + 1) as nat, txs.len());
                    }
                    return None;
                },
            }
            i += 1;
        }
        Some(total)
    }
}

} // verus!
