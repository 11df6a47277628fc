//! What an explorer asks of a chain: the addresses that own most, and how
//! fast blocks have come of late.

use crate::chain::block::{Block, BlockView};
use crate::chain::blockchain::Blockchain;
use crate::chain::transaction::{Transaction, TransactionView};
use crate::chain::utxo::{
    balance_of, entry_pays_to, lookup, pays_to, recorded_address, script_matches_address,
    script_pays_address, script_to_address, UtxoEntryView, UtxoSet,
};
use crate::crypto::hash::{Hash256, Hashable};
use crate::error::{QtcError, TxReason};
use vstd::prelude::*;
use vstd::string::StringExecFns;

verus! {

/// The number of blocks at the tip over which the block time is averaged.
pub const RECENT_BLOCKS: usize = 10;

/// The block time that is reported where the chain has a single block.
pub const DEFAULT_BLOCK_TIME: u64 = 450;

/// Addresses with balances, as values.
pub open spec fn balances_view(list: Seq<(String, u64)>) -> Seq<(Seq<char>, u64)> {
    list.map_values(|pair: (String, u64)| (pair.0@, pair.1))
}

/// The texts of addresses.
pub open spec fn addresses_view(addresses: Seq<String>) -> Seq<Seq<char>> {
    addresses.map_values(|a: String| a@)
}

/// The addresses that own something among the unspent outputs, each with
/// what it owns, in the order of the addresses.
pub open spec fn positive_balances(utxos: Seq<UtxoEntryView>, addresses: Seq<Seq<char>>) -> Seq<
    (Seq<char>, u64),
>
    decreases addresses.len(),
{
    if addresses.len() == 0 {
        Seq::empty()
    } else if balance_of(utxos, addresses.last()) > 0 {
        positive_balances(utxos, addresses.drop_last()).push(
            (addresses.last(), balance_of(utxos, addresses.last()) as u64),
        )
    } else {
        positive_balances(utxos, addresses.drop_last())
    }
}

/// Whether the balances do not rise along the sequence.
pub open spec fn balances_descend(list: Seq<(Seq<char>, u64)>) -> bool {
    forall|i: int| 0 <= i < list.len() - 1 ==> (#[trigger] list[i]).1 >= list[i + 1].1
}

/// Whether `ranked` with `left` is how `all` is ranked up to `limit`
/// places: the two hold what `all` holds; the ranked balances do not rise,
/// and none left over is above a ranked one; `limit` places are taken, or
/// all where there are fewer.
pub open spec fn is_ranking(
    all: Seq<(Seq<char>, u64)>,
    limit: int,
    ranked: Seq<(Seq<char>, u64)>,
    left: Seq<(Seq<char>, u64)>,
) -> bool {
    &&& ranked.to_multiset().add(left.to_multiset()) == all.to_multiset()
    &&& balances_descend(ranked)
    &&& forall|i: int, j: int|
        0 <= i < ranked.len() && 0 <= j < left.len() ==> (#[trigger] ranked[i]).1 >= (
        #[trigger] left[j]).1
    &&& ranked.len() == if limit < all.len() {
        limit
    } else {
        all.len() as int
    }
}

/// Whether `ranked` holds the `limit` largest of `all`, the largest
/// first: it is a ranking with what it leaves over.
pub open spec fn is_ranked(
    all: Seq<(Seq<char>, u64)>,
    limit: int,
    ranked: Seq<(Seq<char>, u64)>,
) -> bool {
    exists|left: Seq<(Seq<char>, u64)>| #[trigger] is_ranking(all, limit, ranked, left)
}

/// Ranking the largest of what is left next keeps the ranked in order,
/// above what is left, and together with it what all hold.
pub proof fn lemma_ranking_step(
    ranked: Seq<(Seq<char>, u64)>,
    left: Seq<(Seq<char>, u64)>,
    best: int,
    all: Seq<(Seq<char>, u64)>,
)
    requires
        0 <= best < left.len(),
        ranked.to_multiset().add(left.to_multiset()) == all.to_multiset(),
        balances_descend(ranked),
        forall|i: int, j: int|
            0 <= i < ranked.len() && 0 <= j < left.len() ==> (#[trigger] ranked[i]).1 >= (
            #[trigger] left[j]).1,
        forall|j: int| 0 <= j < left.len() ==> left[best].1 >= (#[trigger] left[j]).1,
    ensures
        ranked.push(left[best]).to_multiset().add(left.remove(best).to_multiset())
            == all.to_multiset(),
        balances_descend(ranked.push(left[best])),
        forall|i: int, j: int|
            0 <= i < ranked.len() + 1 && 0 <= j < left.len() - 1 ==> (#[trigger] ranked.push(
                left[best],
            )[i]).1 >= (#[trigger] left.remove(best)[j]).1,
{
    broadcast use vstd::multiset::group_multiset_axioms;

    let picked = left[best];
    let after = ranked.push(picked);
    let rest = left.remove(best);
    vstd::seq_lib::to_multiset_remove(left, best);
    vstd::seq_lib::to_multiset_build(ranked, picked);
    left.to_multiset_ensures();
    assert(left.contains(picked));
    assert(after.to_multiset().add(rest.to_multiset()) =~= ranked.to_multiset().add(
        left.to_multiset(),
    ));
    assert forall|i: int| 0 <= i < after.len() - 1 implies (#[trigger] after[i]).1 >= after[i
        + 1].1 by {
        if i + 1 < ranked.len() {
            assert(after[i] == ranked[i] && after[i + 1] == ranked[i + 1]);
        } else {
            assert(after[i] == ranked[i]);
            assert(ranked[i].1 >= left[best].1);
        }
    }
    assert forall|i: int, j: int| 0 <= i < ranked.len() + 1 && 0 <= j < left.len() - 1 implies (
    #[trigger] after[i]).1 >= (#[trigger] rest[j]).1 by {
        let source = if j < best {
            j
        } else {
            j + 1
        };
        assert(rest[j] == left[source]);
        if i < ranked.len() {
            assert(after[i] == ranked[i]);
            assert(ranked[i].1 >= left[source].1);
        } else {
            assert(left[best].1 >= left[source].1);
        }
    }
}

/// Ranks addresses by what they own: the largest balances first, up to
/// `limit` places.
pub fn rank_balances(balances: Vec<(String, u64)>, limit: usize) -> (ranked: Vec<(String, u64)>)
    ensures
        is_ranked(balances_view(balances@), limit as int, balances_view(ranked@)),
{
    let ghost all = balances_view(balances@);
    let mut remaining = balances;
    let mut ranked: Vec<(String, u64)> = Vec::new();
    proof {
        assert(balances_view(ranked@) =~= Seq::<(Seq<char>, u64)>::empty());
        assert(balances_view(ranked@).to_multiset().add(balances_view(remaining@).to_multiset())
            =~= all.to_multiset()) by {
            vstd::seq_lib::lemma_multiset_commutative(
                balances_view(ranked@),
                balances_view(remaining@),
            );
            assert(balances_view(ranked@) + balances_view(remaining@) =~= all);
        }
    }
    while remaining.len() > 0 && ranked.len() < limit
        invariant
            balances_view(ranked@).to_multiset().add(balances_view(remaining@).to_multiset())
                == all.to_multiset(),
            balances_descend(balances_view(ranked@)),
            forall|i: int, j: int|
                0 <= i < ranked@.len() && 0 <= j < remaining@.len() ==> (
                #[trigger] balances_view(ranked@)[i]).1 >= (#[trigger] balances_view(
                    remaining@,
                )[j]).1,
            ranked@.len() + remaining@.len() == all.len(),
            ranked@.len() <= limit,
        decreases remaining@.len(),
    {
        let ghost ranked_before = balances_view(ranked@);
        let ghost left_before = balances_view(remaining@);
        let mut best: usize = 0;
        let mut k: usize = 1;
        while k < remaining.len()
            invariant
                best < k <= remaining@.len(),
                left_before == balances_view(remaining@),
                forall|j: int|
                    0 <= j < k ==> left_before[best as int].1 >= (#[trigger] left_before[j]).1,
            decreases remaining@.len() - k,
        {
            if remaining[k].1 > remaining[best].1 {
                best = k;
            }
            k += 1;
        }
        let picked = remaining.remove(best);
        proof {
            assert(balances_view(remaining@) =~= left_before.remove(best as int));
            assert((picked.0@, picked.1) == left_before[best as int]);
        }
        ranked.push(picked);
        proof {
            assert(balances_view(ranked@) =~= ranked_before.push(left_before[best as int]));
            lemma_ranking_step(ranked_before, left_before, best as int, all);
        }
    }
    proof {
        assert(is_ranking(
            all,
            limit as int,
            balances_view(ranked@),
            balances_view(remaining@),
        ));
    }
    ranked
}

/// The time between the block at `k` and the one before it, nothing where
/// the clock went back.
pub open spec fn spacing_at(chain: Seq<BlockView>, k: int) -> int {
    if chain[k].header.timestamp >= chain[k - 1].header.timestamp {
        chain[k].header.timestamp - chain[k - 1].header.timestamp
    } else {
        0
    }
}

/// The sum of the times between consecutive blocks from the block at
/// `from` to the block at `to`.
pub open spec fn spacing_sum(chain: Seq<BlockView>, from: int, to: int) -> int
    decreases to - from,
{
    if to <= from {
        0
    } else {
        spacing_sum(chain, from, to - 1) + spacing_at(chain, to)
    }
}

/// Where the last blocks of a chain start: ten before the end, or at the
/// first block.
pub open spec fn recent_start(len: int) -> int {
    if len > RECENT_BLOCKS {
        len - RECENT_BLOCKS
    } else {
        0
    }
}

/// The average time between the last ten blocks of a chain, rounded down;
/// 450 seconds where it has a single block.
pub open spec fn average_spacing(chain: Seq<BlockView>) -> int {
    let first = recent_start(chain.len() as int);
    let last = chain.len() - 1;
    if last <= first {
        DEFAULT_BLOCK_TIME as int
    } else {
        spacing_sum(chain, first, last) / (last - first)
    }
}

/// The sum of spacings is between nothing and the largest time for each.
pub proof fn lemma_spacing_sum_bounds(chain: Seq<BlockView>, from: int, to: int)
    requires
        0 <= from <= to < chain.len(),
    ensures
        0 <= spacing_sum(chain, from, to) <= (to - from) * u64::MAX,
    decreases to - from,
{
    if to > from {
        lemma_spacing_sum_bounds(chain, from, to - 1);
        assert((to - from) * u64::MAX == (to - 1 - from) * u64::MAX + u64::MAX) by (nonlinear_arith);
    }
}

impl Blockchain {
    /// The addresses among `addresses` that own something, each with what
    /// it owns, ranked by that: the largest first, up to `limit` places.
    /// Refused where what an address owns does not fit in 64 bits.
    pub fn get_rich_list(&self, addresses: &Vec<String>, limit: usize) -> (out: Result<
        Vec<(String, u64)>,
        QtcError,
    >)
        ensures
            out is Ok <==> forall|k: int|
                0 <= k < addresses@.len() ==> balance_of(
                    self.utxos(),
                    (#[trigger] addresses@[k])@,
                ) <= u64::MAX,
            out matches Ok(ranked) ==> is_ranked(
                positive_balances(self.utxos(), addresses_view(addresses@)),
                limit as int,
                balances_view(ranked@),
            ),
            out matches Err(e) ==> e == QtcError::Transaction(TxReason::ValueOverflow),
    {
        let ghost texts = addresses_view(addresses@);
        let mut balances: Vec<(String, u64)> = Vec::new();
        let mut i: usize = 0;
        assert(texts.take(0) =~= Seq::<Seq<char>>::empty());
        assert(balances_view(balances@) =~= Seq::<(Seq<char>, u64)>::empty());
        while i < addresses.len()
            invariant
                i <= addresses@.len(),
                texts == addresses_view(addresses@),
                balances_view(balances@) == positive_balances(self.utxos(), texts.take(i as int)),
                forall|k: int|
                    0 <= k < i ==> balance_of(self.utxos(), (#[trigger] addresses@[k])@)
                        <= u64::MAX,
            decreases addresses@.len() - i,
        {
            assert(texts.take(i as int + 1).drop_last() =~= texts.take(i as int));
            assert(texts.take(i as int + 1).last() == addresses@[i as int]@);
            let balance = match self.get_balance(addresses[i].as_str()) {
                Err(e) => {
                    return Err(e);
                },
                Ok(balance) => balance,
            };
            if balance > 0 {
                let ghost before = balances_view(balances@);
                balances.push((addresses[i].clone(), balance));
                assert(balances_view(balances@) =~= before.push((addresses@[i as int]@, balance)));
            }
            i += 1;
        }
        assert(texts.take(i as int) =~= texts);
        let ghost all = balances_view(balances@);
        assert(all == positive_balances(self.utxos(), addresses_view(addresses@)));
        let ranked = rank_balances(balances, limit);
        Ok(ranked)
    }

    /// The average time between the last ten blocks, in seconds, rounded
    /// down; 450 where the chain has a single block. A block that is
    /// stamped before the one it follows counts as no time.
    pub fn average_block_time(&self) -> (seconds: u64)
        requires
            self.well_formed(),
        ensures
            seconds == average_spacing(self.chain()),
    {
        let recent = match self.get_latest_blocks(RECENT_BLOCKS) {
            Ok(blocks) => blocks,
            Err(_) => Vec::new(),
        };
        let ghost chain = self.chain();
        let ghost len = chain.len() as int;
        if recent.len() < 2 {
            return DEFAULT_BLOCK_TIME;
        }
        let count = recent.len() - 1;
        let ghost first = len - 1 - count;
        let mut total: u128 = 0;
        let mut i: usize = count;
        while i > 0
            invariant
                i <= count,
                count == recent@.len() - 1,
                1 <= count <= RECENT_BLOCKS,
                chain == self.chain(),
                len == chain.len(),
                recent@.len() <= len,
                first == len - 1 - count,
                forall|k: int| 0 <= k < recent@.len() ==> (#[trigger] recent@[k])@ == chain[len - 1 - k],
                total == spacing_sum(chain, first, first + (count - i)),
            decreases i,
        {
            let newer = recent[i - 1].header.timestamp;
            let older = recent[i].header.timestamp;
            let ghost at = first + (count - i) + 1;
            proof {
                assert(recent@[i as int - 1]@ == chain[len - 1 - (i - 1)]);
                assert(recent@[i as int]@ == chain[len - 1 - i]);
                assert(at == len - 1 - (i - 1));
                lemma_spacing_sum_bounds(chain, first, at - 1);
            }
            let spacing = if newer >= older {
                newer - older
            } else {
                0
            };
            assert(spacing == spacing_at(chain, at));
            total = total + spacing as u128;
            i -= 1;
        }
        proof {
            lemma_spacing_sum_bounds(chain, first, len - 1);
            assert(first == recent_start(len));
            assert(spacing_sum(chain, first, len - 1) / (count as int) <= u64::MAX) by (nonlinear_arith)
                requires
                    0 <= spacing_sum(chain, first, len - 1) <= count * u64::MAX,
                    count >= 1,
            ;
        }
        (total / count as u128) as u64
    }
}

/// The number of blocks at the tip that are searched for the transactions
/// of an address.
pub const HISTORY_BLOCKS: usize = 1000;

/// The number of transactions of an address that are listed where no
/// number is asked for.
pub const DEFAULT_HISTORY_LIMIT: usize = 100;

/// Whether an output with this script pays an address: the script is
/// recorded under the address, or is the one the address is paid with.
pub open spec fn output_pays(script: Seq<u8>, address: Seq<char>) -> bool {
    recorded_address(script) == address || script_matches_address(script, address)
}

/// Whether a transaction pays an address in one of its outputs.
pub open spec fn pays_address(tx: TransactionView, address: Seq<char>) -> bool {
    exists|i: int|
        0 <= i < tx.outputs.len() && output_pays((#[trigger] tx.outputs[i]).script_pubkey, address)
}

/// Whether a transaction spends an unspent output of an address.
pub open spec fn spends_from(
    tx: TransactionView,
    utxos: Seq<UtxoEntryView>,
    address: Seq<char>,
) -> bool {
    exists|i: int|
        0 <= i < tx.inputs.len() && lookup(utxos, (#[trigger] tx.inputs[i]).previous_output)
            is Some && pays_to(lookup(utxos, tx.inputs[i].previous_output)->0, address)
}

/// Whether a transaction has to do with an address: it pays the address,
/// or it is no coinbase and spends an unspent output of the address.
pub open spec fn involves(tx: TransactionView, utxos: Seq<UtxoEntryView>, address: Seq<char>) -> bool {
    pays_address(tx, address) || (!tx.is_coinbase() && spends_from(tx, utxos, address))
}

/// Those of the first `n` transactions of a block that have to do with an
/// address, in their order, each with its hash and the height of the
/// block.
pub open spec fn matches_in(
    block: BlockView,
    utxos: Seq<UtxoEntryView>,
    address: Seq<char>,
    n: nat,
) -> Seq<(Seq<u8>, TransactionView, u64)>
    decreases n,
{
    if n == 0 {
        Seq::empty()
    } else {
        let before = matches_in(block, utxos, address, (n - 1) as nat);
        let tx = block.transactions[n - 1];
        if involves(tx, utxos, address) {
            before.push((tx.txid(), tx, block.header.height))
        } else {
            before
        }
    }
}

/// The transactions of the `k` newest blocks of a chain that have to do
/// with an address, the newest block first, each block's in their order.
pub open spec fn history(
    chain: Seq<BlockView>,
    utxos: Seq<UtxoEntryView>,
    address: Seq<char>,
    k: nat,
) -> Seq<(Seq<u8>, TransactionView, u64)>
    decreases k,
{
    if k == 0 {
        Seq::empty()
    } else {
        history(chain, utxos, address, (k - 1) as nat) + matches_in(
            chain[chain.len() - k],
            utxos,
            address,
            chain[chain.len() - k].transactions.len(),
        )
    }
}

/// Listed transactions as values.
pub open spec fn listed_view(listed: Seq<(Hash256, Transaction, u64)>) -> Seq<
    (Seq<u8>, TransactionView, u64),
> {
    listed.map_values(|e: (Hash256, Transaction, u64)| (e.0@, e.1@, e.2))
}

/// Whether an output with this script pays an address.
pub fn script_pays(script: &[u8], address: &str) -> (pays: bool)
    ensures
        pays == output_pays(script@, address@),
{
    let recorded = match script_to_address(script) {
        Some(text) => text,
        None => String::from_str("unknown"),
    };
    recorded == String::from_str(address) || script_pays_address(script, address)
}

/// Whether a transaction has to do with an address against the unspent
/// outputs.
pub fn transaction_involves(tx: &Transaction, utxos: &UtxoSet, address: &str) -> (found: bool)
    ensures
        found == involves(tx@, utxos@, address@),
{
    let mut i: usize = 0;
    while i < tx.outputs.len()
        invariant
            i <= tx.outputs@.len(),
            tx@.outputs.len() == tx.outputs@.len(),
            forall|j: int|
                0 <= j < i ==> !output_pays((#[trigger] tx@.outputs[j]).script_pubkey, address@),
        decreases tx.outputs@.len() - i,
    {
        assert(tx.outputs@[i as int]@ == tx@.outputs[i as int]);
        if script_pays(tx.outputs[i].script_pubkey.as_slice(), address) {
            return true;
        }
        i += 1;
    }
    assert(!pays_address(tx@, address@));
    if tx.is_coinbase() {
        return false;
    }
    let mut k: usize = 0;
    while k < tx.inputs.len()
        invariant
            k <= tx.inputs@.len(),
            tx@.inputs.len() == tx.inputs@.len(),
            !pays_address(tx@, address@),
            !tx@.is_coinbase(),
            forall|j: int|
                0 <= j < k ==> !(lookup(utxos@, (#[trigger] tx@.inputs[j]).previous_output)
                    is Some && pays_to(
                    lookup(utxos@, tx@.inputs[j].previous_output)->0,
                    address@,
                )),
        decreases tx.inputs@.len() - k,
    {
        assert(tx.inputs@[k as int]@ == tx@.inputs[k as int]);
        match utxos.find(&tx.inputs[k].previous_output) {
            Some(entry) => {
                if entry_pays_to(entry, address) {
                    return true;
                }
            },
            None => {},
        }
        k += 1;
    }
    assert(!spends_from(tx@, utxos@, address@));
    false
}

impl Blockchain {
    /// The transactions of the last thousand blocks that have to do with
    /// an address, the newest block first, each with its hash and the
    /// height of its block: those that pay the address, and those that
    /// spend an output of it that is still unspent. As many are listed as
    /// `limit` asks for, 100 where it asks for none and one where it asks
    /// for nothing.
    pub fn get_address_transactions(&self, address: &str, limit: Option<usize>) -> (out: Result<
        Vec<(Hash256, Transaction, u64)>,
        QtcError,
    >)
        requires
            self.well_formed(),
        ensures
            out matches Ok(listed) && ({
                let searched = if self.chain().len() < HISTORY_BLOCKS {
                    self.chain().len()
                } else {
                    HISTORY_BLOCKS as nat
                };
                let all = history(self.chain(), self.utxos(), address@, searched);
                let asked = match limit {
                    None => DEFAULT_HISTORY_LIMIT as int,
                    Some(n) => if n == 0 {
                        1
                    } else {
                        n as int
                    },
                };
                listed_view(listed@) == all.take(
                    if asked < all.len() {
                        asked
                    } else {
                        all.len() as int
                    },
                )
            }),
    {
        let asked: usize = match limit {
            None => DEFAULT_HISTORY_LIMIT,
            Some(n) => if n == 0 {
                1
            } else {
                n
            },
        };
        let blocks = match self.get_latest_blocks(HISTORY_BLOCKS) {
            Ok(blocks) => blocks,
            Err(_) => Vec::new(),
        };
        let ghost chain = self.chain();
        let ghost utxos = self.utxos();
        let mut found: Vec<(Hash256, Transaction, u64)> = Vec::new();
        let mut k: usize = 0;
        assert(listed_view(found@) =~= history(chain, utxos, address@, 0));
        while k < blocks.len()
            invariant
                k <= blocks@.len(),
                chain == self.chain(),
                utxos == self.utxos(),
                blocks@.len() <= chain.len(),
                forall|b: int|
                    0 <= b < blocks@.len() ==> (#[trigger] blocks@[b])@ == chain[chain.len() - 1
                        - b],
                listed_view(found@) == history(chain, utxos, address@, k as nat),
            decreases blocks@.len() - k,
        {
            let block = &blocks[k];
            assert(block@ == chain[chain.len() - (k + 1)]);
            let ghost before = listed_view(found@);
            let mut j: usize = 0;
            assert(listed_view(found@) =~= before + matches_in(block@, utxos, address@, 0));
            while j < block.transactions.len()
                invariant
                    j <= block.transactions@.len(),
                    block@.transactions.len() == block.transactions@.len(),
                    utxos == self.utxos(),
                    listed_view(found@) == before + matches_in(block@, utxos, address@, j as nat),
                decreases block.transactions@.len() - j,
            {
                assert(block.transactions@[j as int]@ == block@.transactions[j as int]);
                let tx = &block.transactions[j];
                if transaction_involves(tx, self.utxo_set(), address) {
                    let ghost listed = listed_view(found@);
                    found.push((tx.hash(), tx.clone(), block.header.height));
                    assert(listed_view(found@) =~= listed.push(
                        (tx@.txid(), tx@, block@.header.height),
                    ));
                    assert(listed_view(found@) =~= before + matches_in(
                        block@,
                        utxos,
                        address@,
                        (j + 1) as nat,
                    ));
                }
                j += 1;
            }
            k += 1;
        }
        let ghost all = listed_view(found@);
        if found.len() > asked {
            found.truncate(asked);
            assert(listed_view(found@) =~= all.take(asked as int));
        } else {
            assert(all.take(all.len() as int) =~= all);
        }
        Ok(found)
    }
}

} // verus!
