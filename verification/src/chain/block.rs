//! Blocks: a header that commits to an ordered list of transactions
//! through a merkle root.

use crate::chain::codec::{len_prefix, put_bytes, put_len, put_u32, put_u64, u32_le, u64_le};
use crate::chain::transaction::{Transaction, TransactionView};
use crate::crypto::hash::{sha256_digest, zero_bytes, Hash256, Hashable};
use vstd::prelude::*;

verus! {

/// The model of a [`BlockHeader`].
pub struct BlockHeaderView {
    pub previous_hash: Seq<u8>,
    pub merkle_root: Seq<u8>,
    pub timestamp: u64,
    pub difficulty: u32,
    pub nonce: u64,
    pub height: u64,
}

/// The model of a [`Block`].
pub struct BlockView {
    pub header: BlockHeaderView,
    pub transactions: Seq<TransactionView>,
}

impl BlockHeaderView {
    /// The six fields in order, in fixed widths.
    pub open spec fn encoding(self) -> Seq<u8> {
        self.previous_hash + self.merkle_root + u64_le(self.timestamp) + u32_le(self.difficulty)
            + u64_le(self.nonce) + u64_le(self.height)
    }

    /// The header hash.
    pub open spec fn hash(self) -> Seq<u8> {
        sha256_digest(self.encoding())
    }
}

/// The encodings of a sequence of transactions, one after another.
pub open spec fn encode_transactions(txs: Seq<TransactionView>) -> Seq<u8>
    decreases txs.len(),
{
    if txs.len() == 0 {
        Seq::empty()
    } else {
        encode_transactions(txs.drop_last()) + txs.last().encoding()
    }
}

impl BlockView {
    pub open spec fn encoding(self) -> Seq<u8> {
        self.header.encoding() + len_prefix(self.transactions.len()) + encode_transactions(
            self.transactions,
        )
    }
}

/// The parent of two nodes of the merkle tree.
pub open spec fn merkle_parent(left: Seq<u8>, right: Seq<u8>) -> Seq<u8> {
    sha256_digest(left + right)
}

/// The level above `level`: its nodes paired from the left, the last one
/// paired with itself where the level is odd.
pub open spec fn merkle_level_up(level: Seq<Seq<u8>>) -> Seq<Seq<u8>> {
    Seq::new(
        ((level.len() + 1) / 2) as nat,
        |i: int|
            merkle_parent(
                level[2 * i],
                if 2 * i + 1 < level.len() {
                    level[2 * i + 1]
                } else {
                    level[2 * i]
                },
            ),
    )
}

/// The root above a level of the tree: zero for no node, the node itself
/// for one.
pub open spec fn merkle_fold(level: Seq<Seq<u8>>) -> Seq<u8>
    decreases level.len(),
{
    if level.len() == 0 {
        zero_bytes(32)
    } else if level.len() == 1 {
        level[0]
    } else {
        merkle_fold(merkle_level_up(level))
    }
}

/// The identifiers of a sequence of transactions.
pub open spec fn txids(txs: Seq<TransactionView>) -> Seq<Seq<u8>> {
    txs.map_values(|t: TransactionView| t.txid())
}

/// The merkle root of an ordered list of transactions.
pub open spec fn merkle_root(txs: Seq<TransactionView>) -> Seq<u8> {
    merkle_fold(txids(txs))
}

/// Two lists of fewer than two transactions that hold the same
/// transactions have the same merkle root: there is no other order to put
/// them in.
pub proof fn lemma_merkle_root_of_reordered_short(
    txs: Seq<TransactionView>,
    reordered: Seq<TransactionView>,
)
    requires
        txs.len() < 2,
        txs.to_multiset() == reordered.to_multiset(),
    ensures
        merkle_root(txs) == merkle_root(reordered),
{
    vstd::seq_lib::to_multiset_len(txs);
    vstd::seq_lib::to_multiset_len(reordered);
    assert(txs.len() == reordered.len());
    if txs.len() == 1 {
        txs.to_multiset_ensures();
        reordered.to_multiset_ensures();
        assert(txs.contains(txs[0]));
        assert(reordered.to_multiset().count(txs[0]) > 0);
        assert(reordered.contains(txs[0]));
        assert(reordered[0] == txs[0]);
    }
    assert(txs =~= reordered);
}

/// What SHA-256 is held to: its digests have 32 bytes, and no two byte
/// strings have the same digest. The second is not true of any function
/// with digests of one length; it stands for "no collision is met".
pub open spec fn sha256_collision_free() -> bool {
    &&& forall|a: Seq<u8>| (#[trigger] sha256_digest(a)).len() == 32
    &&& forall|a: Seq<u8>, b: Seq<u8>|
        #[trigger] sha256_digest(a) == #[trigger] sha256_digest(b) ==> a == b
}

/// Whether every node of a level has 32 bytes.
pub open spec fn nodes_sized(level: Seq<Seq<u8>>) -> bool {
    forall|i: int| 0 <= i < level.len() ==> (#[trigger] level[i]).len() == 32
}

/// Two levels of one length that differ have, barring a collision,
/// levels above them that differ.
pub proof fn lemma_level_up_differs(x: Seq<Seq<u8>>, y: Seq<Seq<u8>>)
    requires
        sha256_collision_free(),
        x.len() == y.len(),
        x != y,
        nodes_sized(x),
        nodes_sized(y),
    ensures
        merkle_level_up(x) != merkle_level_up(y),
        merkle_level_up(x).len() == merkle_level_up(y).len(),
        nodes_sized(merkle_level_up(x)),
        nodes_sized(merkle_level_up(y)),
{
    assert(exists|p: int| 0 <= p < x.len() && x[p] != y[p]) by {
        if !(exists|p: int| 0 <= p < x.len() && x[p] != y[p]) {
            assert(x =~= y);
        }
    }
    let p = choose|p: int| 0 <= p < x.len() && x[p] != y[p];
    let i = p / 2;
    let xl = x[2 * i];
    let yl = y[2 * i];
    let xr = if 2 * i + 1 < x.len() {
        x[2 * i + 1]
    } else {
        x[2 * i]
    };
    let yr = if 2 * i + 1 < y.len() {
        y[2 * i + 1]
    } else {
        y[2 * i]
    };
    assert(xl != yl || xr != yr);
    assert(xl.len() == 32 && yl.len() == 32);
    if xl + xr == yl + yr {
        assert((xl + xr).subrange(0, 32) =~= xl);
        assert((yl + yr).subrange(0, 32) =~= yl);
        assert((xl + xr).subrange(32, (xl + xr).len() as int) =~= xr);
        assert((yl + yr).subrange(32, (yl + yr).len() as int) =~= yr);
    }
    assert(merkle_level_up(x)[i] == merkle_parent(xl, xr));
    assert(merkle_level_up(y)[i] == merkle_parent(yl, yr));
    assert(merkle_level_up(x)[i] != merkle_level_up(y)[i]);
}

/// Two levels of one length that differ have, barring a collision,
/// different roots.
pub proof fn lemma_fold_differs(x: Seq<Seq<u8>>, y: Seq<Seq<u8>>)
    requires
        sha256_collision_free(),
        x.len() == y.len(),
        x != y,
        nodes_sized(x),
        nodes_sized(y),
    ensures
        merkle_fold(x) != merkle_fold(y),
    decreases x.len(),
{
    if x.len() == 0 {
        assert(x =~= y);
    } else if x.len() == 1 {
        if x[0] == y[0] {
            assert(x =~= y);
        }
    } else {
        lemma_level_up_differs(x, y);
        lemma_fold_differs(merkle_level_up(x), merkle_level_up(y));
    }
}

/// Putting the transactions of a list in another order gives, barring a
/// collision of SHA-256, another merkle root wherever it gives another
/// sequence of transaction hashes.
pub proof fn lemma_merkle_root_of_reordered(
    txs: Seq<TransactionView>,
    reordered: Seq<TransactionView>,
)
    requires
        sha256_collision_free(),
        txs.to_multiset() == reordered.to_multiset(),
        txids(txs) != txids(reordered),
    ensures
        txs.len() >= 2,
        merkle_root(txs) != merkle_root(reordered),
{
    vstd::seq_lib::to_multiset_len(txs);
    vstd::seq_lib::to_multiset_len(reordered);
    if txs.len() < 2 {
        lemma_merkle_root_of_reordered_short(txs, reordered);
        assert(txs =~= reordered) by {
            if txs.len() == 1 {
                txs.to_multiset_ensures();
                reordered.to_multiset_ensures();
                assert(txs.contains(txs[0]));
                assert(reordered.to_multiset().count(txs[0]) > 0);
                assert(reordered.contains(txs[0]));
                assert(reordered[0] == txs[0]);
            }
        }
    }
    assert(nodes_sized(txids(txs)));
    assert(nodes_sized(txids(reordered)));
    lemma_fold_differs(txids(txs), txids(reordered));
}

/// The models of a sequence of transactions.
pub open spec fn transactions_view(txs: Seq<Transaction>) -> Seq<TransactionView> {
    txs.map_values(|t: Transaction| t@)
}

/// The views of a sequence of hashes.
pub open spec fn hashes_view(hashes: Seq<Hash256>) -> Seq<Seq<u8>> {
    hashes.map_values(|h: Hash256| h@)
}

/// `chrono::Utc::now`: the clock's time in seconds since the epoch. Nothing
/// is promised of it.
#[verifier::external_body]
pub(crate) fn unix_time_now() -> (now: u64) {
    chrono::Utc::now().timestamp() as u64
}

/// The header of a block.
#[derive(Debug)]
pub struct BlockHeader {
    pub previous_hash: Hash256,
    pub merkle_root: Hash256,
    pub timestamp: u64,
    pub difficulty: u32,
    pub nonce: u64,
    pub height: u64,
}

impl View for BlockHeader {
    type V = BlockHeaderView;

    open spec fn view(&self) -> BlockHeaderView {
        BlockHeaderView {
            previous_hash: self.previous_hash@,
            merkle_root: self.merkle_root@,
            timestamp: self.timestamp,
            difficulty: self.difficulty,
            nonce: self.nonce,
            height: self.height,
        }
    }
}

impl Clone for BlockHeader {
    fn clone(&self) -> (copy: Self)
        ensures
            copy@ == self@,
    {
        BlockHeader {
            previous_hash: self.previous_hash,
            merkle_root: self.merkle_root,
            timestamp: self.timestamp,
            difficulty: self.difficulty,
            nonce: self.nonce,
            height: self.height,
        }
    }
}

impl BlockHeader {
    /// The canonical encoding, 92 bytes.
    pub fn encode(&self) -> (bytes: Vec<u8>)
        ensures
            bytes@ == self@.encoding(),
    {
        let mut buf: Vec<u8> = Vec::new();
        self.encode_into(&mut buf);
        assert(buf@ =~= self@.encoding());
        buf
    }

    /// Appends the canonical encoding.
    pub fn encode_into(&self, buf: &mut Vec<u8>)
        ensures
            final(buf)@ == old(buf)@ + self@.encoding(),
    {
        put_bytes(buf, self.previous_hash.as_bytes().as_slice());
        put_bytes(buf, self.merkle_root.as_bytes().as_slice());
        put_u64(buf, self.timestamp);
        put_u32(buf, self.difficulty);
        put_u64(buf, self.nonce);
        put_u64(buf, self.height);
        assert(buf@ =~= old(buf)@ + self@.encoding());
    }
}

impl Hashable for BlockHeader {
    open spec fn hash_input(&self) -> Seq<u8> {
        self@.encoding()
    }

    fn hash(&self) -> (h: Hash256) {
        let bytes = self.encode();
        Hash256::hash(bytes.as_slice())
    }
}

/// A header and the transactions it commits to, the coinbase first.
#[derive(Debug)]
pub struct Block {
    pub header: BlockHeader,
    pub transactions: Vec<Transaction>,
}

impl View for Block {
    type V = BlockView;

    open spec fn view(&self) -> BlockView {
        BlockView { header: self.header@, transactions: transactions_view(self.transactions@) }
    }
}

/// A copy of a vector of transactions.
pub fn clone_transactions(txs: &Vec<Transaction>) -> (copy: Vec<Transaction>)
    ensures
        transactions_view(copy@) == transactions_view(txs@),
{
    let mut copy: Vec<Transaction> = Vec::new();
    let mut i: usize = 0;
    while i < txs.len()
        invariant
            i <= txs@.len(),
            copy@.len() == i,
            forall|j: int| 0 <= j < i ==> copy@[j]@ == txs@[j]@,
        decreases txs@.len() - i,
    {
        copy.push(txs[i].clone());
        i += 1;
    }
    assert(transactions_view(copy@) =~= transactions_view(txs@));
    copy
}

impl Clone for Block {
    fn clone(&self) -> (copy: Self)
        ensures
            copy@ == self@,
    {
        Block { header: self.header.clone(), transactions: clone_transactions(&self.transactions) }
    }
}

/// Unfolds [`encode_transactions`] at the end of a prefix.
pub proof fn lemma_encode_transactions_step(txs: Seq<TransactionView>, i: int)
    requires
        0 <= i < txs.len(),
    ensures
        encode_transactions(txs.take(i + 1)) == encode_transactions(txs.take(i))
            + txs[i].encoding(),
{
    assert(txs.take(i + 1).drop_last() =~= txs.take(i));
}

impl Block {
    /// The block on `previous_hash` that holds `transactions`, stamped
    /// with the clock's time, with nonce 0 and the merkle root of the
    /// transactions.
    pub fn new(
        previous_hash: Hash256,
        transactions: Vec<Transaction>,
        difficulty: u32,
        height: u64,
    ) -> (block: Self)
        ensures
            block@ == (BlockView {
                header: BlockHeaderView {
                    previous_hash: previous_hash@,
                    merkle_root: merkle_root(transactions_view(transactions@)),
                    timestamp: block@.header.timestamp,
                    difficulty,
                    nonce: 0,
                    height,
                },
                transactions: transactions_view(transactions@),
            }),
    {
        let timestamp = unix_time_now();
        Self::with_timestamp(previous_hash, transactions, difficulty, height, timestamp)
    }

    /// The block on `previous_hash` that holds `transactions`, with the
    /// given time, nonce 0 and the merkle root of the transactions.
    pub fn with_timestamp(
        previous_hash: Hash256,
        transactions: Vec<Transaction>,
        difficulty: u32,
        height: u64,
        timestamp: u64,
    ) -> (block: Self)
        ensures
            block@ == (BlockView {
                header: BlockHeaderView {
                    previous_hash: previous_hash@,
                    merkle_root: merkle_root(transactions_view(transactions@)),
                    timestamp,
                    difficulty,
                    nonce: 0,
                    height,
                },
                transactions: transactions_view(transactions@),
            }),
    {
        let merkle_root = Self::calculate_merkle_root(transactions.as_slice());
        Block {
            header: BlockHeader {
                previous_hash,
                merkle_root,
                timestamp,
                difficulty,
                nonce: 0,
                height,
            },
            transactions,
        }
    }

    /// The merkle root of `transactions`: the leaves are the transaction
    /// hashes; each level pairs its nodes from the left and hashes
    /// left‖right, an odd last node paired with itself; no transaction
    /// gives the zero hash.
    pub fn calculate_merkle_root(transactions: &[Transaction]) -> (root: Hash256)
        ensures
            root@ == merkle_root(transactions_view(transactions@)),
    {
        if transactions.len() == 0 {
            return Hash256::zero();
        }
        let ghost txs = transactions_view(transactions@);
        let mut hashes: Vec<Hash256> = Vec::new();
        let mut i: usize = 0;
        while i < transactions.len()
            invariant
                i <= transactions@.len(),
                txs == transactions_view(transactions@),
                hashes@.len() == i,
                forall|j: int| 0 <= j < i ==> hashes@[j]@ == txs[j].txid(),
            decreases transactions@.len() - i,
        {
            hashes.push(transactions[i].hash());
            i += 1;
        }
        assert(hashes_view(hashes@) =~= txids(txs));
        while hashes.len() > 1
            invariant
                hashes@.len() >= 1,
                merkle_fold(hashes_view(hashes@)) == merkle_root(txs),
            decreases hashes@.len(),
        {
            let ghost level = hashes_view(hashes@);
            let mut next_level: Vec<Hash256> = Vec::new();
            let count: usize = hashes.len() / 2 + hashes.len() % 2;
            let mut k: usize = 0;
            while k < count
                invariant
                    k <= count,
                    count == (hashes@.len() + 1) / 2,
                    hashes@.len() <= usize::MAX,
                    level == hashes_view(hashes@),
                    next_level@.len() == k,
                    forall|j: int|
                        0 <= j < next_level@.len() ==> next_level@[j]@ == merkle_level_up(
                            level,
                        )[j],
                decreases count - k,
            {
                let left = hashes[2 * k];
                let right = if 2 * k + 1 < hashes.len() {
                    hashes[2 * k + 1]
                } else {
                    hashes[2 * k]
                };
                let mut combined: Vec<u8> = Vec::new();
                put_bytes(&mut combined, left.as_bytes().as_slice());
                put_bytes(&mut combined, right.as_bytes().as_slice());
                assert(combined@ =~= left@ + right@);
                next_level.push(Hash256::hash(combined.as_slice()));
                k += 1;
            }
            assert(hashes_view(next_level@) =~= merkle_level_up(level));
            hashes = next_level;
        }
        hashes[0]
    }

    pub fn set_nonce(&mut self, nonce: u64)
        ensures
            final(self)@ == (BlockView {
                header: BlockHeaderView { nonce, ..old(self)@.header },
                ..old(self)@
            }),
    {
        self.header.nonce = nonce;
    }

    /// Steps the nonce by one, wrapping at the top.
    pub fn increment_nonce(&mut self)
        ensures
            final(self)@ == (BlockView {
                header: BlockHeaderView {
                    nonce: if old(self)@.header.nonce == u64::MAX {
                        0
                    } else {
                        (old(self)@.header.nonce + 1) as u64
                    },
                    ..old(self)@.header
                },
                ..old(self)@
            }),
    {
        self.header.nonce = self.header.nonce.wrapping_add(1);
    }

    /// The first transaction, which in a valid block is the coinbase.
    pub fn get_coinbase_transaction(&self) -> (first: Option<&Transaction>)
        ensures
            first is Some <==> self@.transactions.len() > 0,
            first matches Some(tx) ==> tx@ == self@.transactions[0],
    {
        if self.transactions.len() == 0 {
            None
        } else {
            Some(&self.transactions[0])
        }
    }

    /// The canonical encoding.
    pub fn encode(&self) -> (bytes: Vec<u8>)
        ensures
            bytes@ == self@.encoding(),
    {
        let ghost txs = self@.transactions;
        let mut buf: Vec<u8> = Vec::new();
        self.header.encode_into(&mut buf);
        put_len(&mut buf, self.transactions.len());
        let ghost head = buf@;
        let mut i: usize = 0;
        while i < self.transactions.len()
            invariant
                i <= self.transactions@.len(),
                txs == self@.transactions,
                txs.len() == self.transactions@.len(),
                buf@ == head + encode_transactions(txs.take(i as int)),
            decreases self.transactions@.len() - i,
        {
            proof {
                lemma_encode_transactions_step(txs, i as int);
            }
            self.transactions[i].encode_into(&mut buf);
            assert(buf@ =~= head + encode_transactions(txs.take(i as int + 1)));
            i += 1;
        }
        assert(txs.take(i as int) =~= txs);
        assert(buf@ =~= self@.encoding());
        buf
    }

    /// The size of the canonical encoding in bytes.
    pub fn size(&self) -> (n: usize)
        ensures
            n == self@.encoding().len(),
    {
        self.encode().len()
    }

    pub fn transaction_count(&self) -> (n: usize)
        ensures
            n == self@.transactions.len(),
    {
        self.transactions.len()
    }

    /// Whether some transaction of the block has the hash `tx_hash`.
    pub fn contains_transaction(&self, tx_hash: &Hash256) -> (found: bool)
        ensures
            found == exists|i: int|
                0 <= i < self@.transactions.len() && #[trigger] self@.transactions[i].txid()
                    == tx_hash@,
    {
        let mut i: usize = 0;
        while i < self.transactions.len()
            invariant
                i <= self.transactions@.len(),
                forall|j: int| 0 <= j < i ==> #[trigger] self@.transactions[j].txid() != tx_hash@,
            decreases self.transactions@.len() - i,
        {
            let h = self.transactions[i].hash();
            if h == *tx_hash {
                assert(self@.transactions[i as int].txid() == tx_hash@);
                return true;
            }
            i += 1;
        }
        false
    }
}

impl Hashable for Block {
    open spec fn hash_input(&self) -> Seq<u8> {
        self@.header.encoding()
    }

    fn hash(&self) -> (h: Hash256) {
        self.header.hash()
    }
}

} // verus!
