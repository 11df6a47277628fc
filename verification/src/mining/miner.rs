//! The nonce search: a block template on the tip, and the search of a
//! range of nonces for one whose proof-of-work hash meets the difficulty.

use crate::chain::block::{transactions_view, Block, BlockHeaderView, BlockView};
use crate::chain::blockchain::{last_n, timestamps_of, Blockchain};
use crate::chain::transaction::{
    script_for_address, OutPointView, Transaction, TransactionView, TxInputView, TxOutputView,
    FINAL_SEQUENCE, NULL_VOUT,
};
use crate::consensus::validation::{after_median, count_below, count_times_below, MEDIAN_WINDOW};
use crate::crypto::hash::{zero_bytes, Hash256};
use crate::error::QtcError;
use crate::mining::randomx::{meets_difficulty, pow_hash, RandomXMiner};
use vstd::prelude::*;
use vstd::string::StringExecFns;

verus! {

/// The distance between the first nonces of two workers.
pub const NONCE_STRIDE: u64 = 1000000;

/// The number of nonces that one round of a worker tries.
pub const ATTEMPTS_PER_ROUND: u64 = 1000;

/// A block whose nonce was found.
#[derive(Debug)]
pub struct MiningResult {
    pub block: Block,
    pub nonce: u64,
    pub hash: Hash256,
    pub target_met: bool,
}

/// The `k`-th nonce from `start`, wrapping at the top.
pub open spec fn nonce_at(start: u64, k: int) -> u64 {
    ((start + k) % 0x1_0000_0000_0000_0000) as u64
}

/// Whether `header` with the nonce `nonce` has a proof-of-work hash under
/// `key` that meets the header's difficulty.
pub open spec fn nonce_solves(header: BlockHeaderView, key: Seq<u8>, nonce: u64) -> bool {
    meets_difficulty(
        pow_hash(key, (BlockHeaderView { nonce, ..header }).encoding()),
        header.difficulty,
    )
}

/// The first nonce of a worker: its number times the stride, wrapping at
/// the top.
pub fn worker_nonce_start(worker_id: usize) -> (start: u64)
    ensures
        start == ((worker_id * NONCE_STRIDE) % 0x1_0000_0000_0000_0000) as u64,
{
    let wide: u128 = (worker_id as u128) * (NONCE_STRIDE as u128);
    (wide % 0x1_0000_0000_0000_0000) as u64
}

/// Whether `t` is the least time that lies after the median of `times`.
pub open spec fn is_earliest_after_median(times: Seq<u64>, t: u64) -> bool {
    after_median(times, t) && forall|u: u64| u < t ==> !#[trigger] after_median(times, u)
}

/// Whether no time lies after the median of `times`: there are no times,
/// or half of them are the greatest time there is.
pub open spec fn none_after_median(times: Seq<u64>) -> bool {
    forall|u: u64| !#[trigger] after_median(times, u)
}

/// Whether `t` is the time of a template made at `now` over the recent
/// block times: `now`, or the least time after the median where that is
/// later.
pub open spec fn is_template_time(times: Seq<u64>, now: u64, t: u64) -> bool {
    &&& t >= now
    &&& t == now || is_earliest_after_median(times, t)
    &&& none_after_median(times) || after_median(times, t)
}

/// Where the entries below `u` are at most `b`, and `b` is below `u`, as
/// many entries lie below `b + 1` as below `u`.
pub proof fn lemma_count_below_same(times: Seq<u64>, b: u64, u: u64)
    requires
        b < u,
        forall|i: int| 0 <= i < times.len() && (#[trigger] times[i]) < u ==> times[i] <= b,
    ensures
        count_below(times, (b + 1) as u64) == count_below(times, u),
    decreases times.len(),
{
    if times.len() > 0 {
        let rest = times.drop_last();
        assert forall|i: int| 0 <= i < rest.len() && (#[trigger] rest[i]) < u implies rest[i]
            <= b by {
            assert(rest[i] == times[i]);
        }
        lemma_count_below_same(rest, b, u);
        assert(times.last() == times[times.len() - 1]);
    }
}

/// Where an entry lies below `u`, one of them is the greatest that does.
pub proof fn lemma_greatest_below(times: Seq<u64>, u: u64)
    requires
        count_below(times, u) > 0,
    ensures
        exists|i: int|
            0 <= i < times.len() && (#[trigger] times[i]) < u && forall|j: int|
                0 <= j < times.len() && (#[trigger] times[j]) < u ==> times[j] <= times[i],
    decreases times.len(),
{
    let rest = times.drop_last();
    let last = times.len() - 1;
    if count_below(rest, u) > 0 {
        lemma_greatest_below(rest, u);
        let i = choose|i: int|
            0 <= i < rest.len() && (#[trigger] rest[i]) < u && forall|j: int|
                0 <= j < rest.len() && (#[trigger] rest[j]) < u ==> rest[j] <= rest[i];
        assert(rest[i] == times[i]);
        let best = if times[last] < u && times[last] > times[i] {
            last
        } else {
            i
        };
        assert forall|j: int| 0 <= j < times.len() && (#[trigger] times[j]) < u implies times[j]
            <= times[best] by {
            if j < last {
                assert(rest[j] == times[j]);
            }
        }
        assert(times[best] < u);
    } else {
        lemma_count_below_none(rest, u);
        assert(times[last] < u);
        assert forall|j: int| 0 <= j < times.len() && (#[trigger] times[j]) < u implies times[j]
            <= times[last] by {
            if j < last {
                assert(rest[j] == times[j]);
            }
        }
    }
}

/// Where no entry is counted below `u`, none lies below it.
pub proof fn lemma_count_below_none(times: Seq<u64>, u: u64)
    requires
        count_below(times, u) <= 0,
    ensures
        forall|i: int| 0 <= i < times.len() ==> (#[trigger] times[i]) >= u,
    decreases times.len(),
{
    if times.len() > 0 {
        let rest = times.drop_last();
        lemma_count_below_not_negative(rest, u);
        lemma_count_below_none(rest, u);
        assert forall|i: int| 0 <= i < times.len() implies (#[trigger] times[i]) >= u by {
            if i < rest.len() {
                assert(rest[i] == times[i]);
            }
        }
    }
}

/// A count is not negative.
pub proof fn lemma_count_below_not_negative(times: Seq<u64>, u: u64)
    ensures
        count_below(times, u) >= 0,
    decreases times.len(),
{
    if times.len() > 0 {
        lemma_count_below_not_negative(times.drop_last(), u);
    }
}

/// A time after the median has a time one after an entry that is after
/// the median too and not later.
pub proof fn lemma_entry_after_median(times: Seq<u64>, u: u64)
    requires
        after_median(times, u),
    ensures
        exists|i: int|
            0 <= i < times.len() && (#[trigger] times[i]) < u && after_median(
                times,
                (times[i] + 1) as u64,
            ),
{
    lemma_greatest_below(times, u);
    let i = choose|i: int|
        0 <= i < times.len() && (#[trigger] times[i]) < u && forall|j: int|
            0 <= j < times.len() && (#[trigger] times[j]) < u ==> times[j] <= times[i];
    lemma_count_below_same(times, times[i], u);
}

/// The least time that lies after the median of `times`, if any time
/// does.
pub fn earliest_time_after_median(times: &[u64]) -> (earliest: Option<u64>)
    ensures
        earliest matches Some(t) ==> is_earliest_after_median(times@, t),
        earliest is None ==> none_after_median(times@),
{
    let mut earliest: Option<u64> = None;
    let mut i: usize = 0;
    while i < times.len()
        invariant
            i <= times@.len(),
            earliest matches Some(t) ==> after_median(times@, t),
            forall|k: int|
                0 <= k < i && (#[trigger] times@[k]) < u64::MAX && after_median(
                    times@,
                    (times@[k] + 1) as u64,
                ) ==> earliest is Some && earliest->0 <= times@[k] + 1,
        decreases times@.len() - i,
    {
        if times[i] < u64::MAX {
            let candidate = times[i] + 1;
            let below = count_times_below(times, candidate);
            if 2 * (below as u128) > times.len() as u128 {
                let better = match earliest {
                    None => true,
                    Some(t) => candidate < t,
                };
                if better {
                    earliest = Some(candidate);
                }
            }
        }
        i += 1;
    }
    proof {
        assert forall|u: u64| #[trigger] after_median(times@, u) implies earliest is Some
            && earliest->0 <= u by {
            lemma_entry_after_median(times@, u);
            let k = choose|k: int|
                0 <= k < times@.len() && (#[trigger] times@[k]) < u && after_median(
                    times@,
                    (times@[k] + 1) as u64,
                );
            assert(times@[k] < u64::MAX);
        }
    }
    earliest
}

/// The later a time, the more entries lie below it.
pub proof fn lemma_count_below_monotone(times: Seq<u64>, a: u64, b: u64)
    requires
        a <= b,
    ensures
        count_below(times, a) <= count_below(times, b),
    decreases times.len(),
{
    if times.len() > 0 {
        lemma_count_below_monotone(times.drop_last(), a, b);
    }
}

/// The coinbase of a template: it pays `reward` to `address` and carries
/// `message` as its script.
pub open spec fn template_coinbase(address: Seq<char>, reward: u64, message: Seq<char>) -> TransactionView {
    TransactionView {
        version: 1,
        inputs: seq![
            TxInputView {
                previous_output: OutPointView { txid: zero_bytes(32), vout: NULL_VOUT },
                signature_script: vstd::utf8::encode_utf8(message),
                sequence: FINAL_SEQUENCE,
            },
        ],
        outputs: seq![TxOutputView { value: reward, script_pubkey: script_for_address(address) }],
        lock_time: 0,
    }
}

/// Whether `block` is the template on the tip of `chain` at `now` that
/// pays `address`: it stands on the tip, one above it, with the difficulty
/// that the next block must have and nonce 0; it holds no transaction but
/// the coinbase, which pays the reward of its height and carries
/// `message`, and names the merkle root of it; its time is `now`, or the
/// least time after the median of the last eleven block times where that
/// is later.
pub open spec fn is_template(
    chain: &Blockchain,
    address: Seq<char>,
    message: Seq<char>,
    now: u64,
    block: BlockView,
) -> bool {
    let coinbase = template_coinbase(
        address,
        chain.policy().reward_at((chain.spec_height() + 1) as nat) as u64,
        message,
    );
    &&& block.header.previous_hash == chain.spec_tip()
    &&& block.header.height == chain.spec_height() + 1
    &&& block.header.difficulty == chain.required_difficulty()
    &&& block.header.nonce == 0
    &&& block.header.merkle_root == crate::chain::block::merkle_root(seq![coinbase])
    &&& block.transactions == seq![coinbase]
    &&& is_template_time(
        last_n(timestamps_of(chain.chain()), MEDIAN_WINDOW as int),
        now,
        block.header.timestamp,
    )
}

/// A block template on the tip of `chain` that pays the reward of its
/// height to `mining_address`: no transaction but the coinbase, whose
/// script is `message`; the difficulty that the next block must have;
/// nonce 0; and as its time `now`, or the least time after the median of
/// the last eleven block times where that is later.
pub fn build_template(chain: &Blockchain, mining_address: &str, message: String, now: u64) -> (out:
    Result<Block, QtcError>)
    requires
        chain.well_formed(),
        chain.spec_height() < u64::MAX,
    ensures
        out matches Ok(block) && is_template(chain, mining_address@, message@, now, block@),
{
    let context = match chain.validation_context(now) {
        Err(e) => {
            return Err(e);
        },
        Ok(c) => c,
    };
    let height = context.tip_height + 1;
    let reward = context.policy.coinbase_reward(height);
    let coinbase = Transaction::new_coinbase(
        String::from_str(mining_address),
        reward,
        message,
    );
    let earliest = earliest_time_after_median(context.recent_timestamps.as_slice());
    let timestamp = match earliest {
        Some(t) => if t > now {
            t
        } else {
            proof {
                lemma_count_below_monotone(context.recent_timestamps@, t, now);
            }
            now
        },
        None => now,
    };
    let mut transactions: Vec<Transaction> = Vec::new();
    transactions.push(coinbase);
    assert(transactions_view(transactions@) =~= seq![coinbase@]);
    Ok(
        Block::with_timestamp(
            context.tip,
            transactions,
            context.required_difficulty,
            height,
            timestamp,
        ),
    )
}

/// Whether `found` is what the search of the `attempts` nonces from
/// `nonce_start` on `template` under `key` gives: nothing where none of
/// them solves the header; else the template with the first of them that
/// does, and the proof-of-work hash of its header.
pub open spec fn is_search_outcome(
    template: BlockView,
    key: Seq<u8>,
    nonce_start: u64,
    attempts: u64,
    found: Option<MiningResult>,
) -> bool {
    match found {
        None => forall|k: int|
            0 <= k < attempts ==> !nonce_solves(
                template.header,
                key,
                #[trigger] nonce_at(nonce_start, k),
            ),
        Some(result) => {
            &&& exists|k: int|
                0 <= k < attempts && result.nonce == nonce_at(nonce_start, k) && forall|j: int|
                    0 <= j < k ==> !nonce_solves(
                        template.header,
                        key,
                        #[trigger] nonce_at(nonce_start, j),
                    )
            &&& result.block@ == (BlockView {
                header: BlockHeaderView { nonce: result.nonce, ..template.header },
                ..template
            })
            &&& nonce_solves(template.header, key, result.nonce)
            &&& result.hash@ == pow_hash(key, result.block@.header.encoding())
            &&& result.target_met
        },
    }
}

/// Tries the `attempts` nonces from `nonce_start` on `template` in order and
/// stops at the first whose proof-of-work hash under the miner's key meets
/// the difficulty of the header.
pub fn mine_range(template: Block, miner: &RandomXMiner, nonce_start: u64, attempts: u64) -> (found:
    Option<MiningResult>)
    ensures
        is_search_outcome(template@, miner.key(), nonce_start, attempts, found),
{
    let ghost goal = template@;
    let mut block = template;
    let difficulty = block.header.difficulty;
    let mut offset: u64 = 0;
    while offset < attempts
        invariant
            offset <= attempts,
            goal == template@,
            difficulty == goal.header.difficulty,
            block@ == (BlockView {
                header: BlockHeaderView { nonce: block@.header.nonce, ..goal.header },
                ..goal
            }),
            forall|j: int|
                0 <= j < offset ==> !nonce_solves(
                    goal.header,
                    miner.key(),
                    #[trigger] nonce_at(nonce_start, j),
                ),
        decreases attempts - offset,
    {
        let nonce: u64 = ((nonce_start as u128 + offset as u128) % 0x1_0000_0000_0000_0000) as u64;
        assert(nonce == nonce_at(nonce_start, offset as int));
        block.set_nonce(nonce);
        let header_data = block.header.encode();
        let solved = match miner.hash(header_data.as_slice()) {
            Err(_) => None,
            Ok(hash) => if hash.meets_difficulty(difficulty) {
                Some(Hash256::new(*hash.as_bytes()))
            } else {
                None
            },
        };
        match solved {
            Some(hash) => {
                proof {
                    assert(block@.header == (BlockHeaderView { nonce, ..goal.header }));
                    assert(nonce_solves(goal.header, miner.key(), nonce));
                    let k = offset as int;
                    assert(0 <= k < attempts && nonce == nonce_at(nonce_start, k) && forall|j: int|
                        0 <= j < k ==> !nonce_solves(
                            goal.header,
                            miner.key(),
                            #[trigger] nonce_at(nonce_start, j),
                        ));
                }
                return Some(MiningResult { block, nonce, hash, target_met: true });
            },
            None => {},
        }
        offset += 1;
    }
    None
}

/// The first nonce of a worker's next round: that of the worker where
/// the tip has changed, else the one after the round that was searched.
pub fn next_nonce_start(worker_id: usize, nonce_start: u64, tip_changed: bool) -> (next: u64)
    ensures
        next == if tip_changed {
            ((worker_id * NONCE_STRIDE) % 0x1_0000_0000_0000_0000) as u64
        } else {
            nonce_at(nonce_start, ATTEMPTS_PER_ROUND as int)
        },
{
    if tip_changed {
        worker_nonce_start(worker_id)
    } else {
        ((nonce_start as u128 + ATTEMPTS_PER_ROUND as u128) % 0x1_0000_0000_0000_0000) as u64
    }
}

/// One round of a worker: a template on the tip of `chain` at `now`, and
/// the search of the round's nonces from `nonce_start`. Gives the template
/// with the first nonce of the round that solves it, or nothing where
/// none does.
pub fn mine_single_attempt(
    chain: &Blockchain,
    miner: &RandomXMiner,
    mining_address: &str,
    message: String,
    nonce_start: u64,
    now: u64,
) -> (out: Result<Option<MiningResult>, QtcError>)
    requires
        chain.well_formed(),
        chain.spec_height() < u64::MAX,
    ensures
        out matches Ok(found) && exists|template: BlockView|
            #[trigger] is_template(chain, mining_address@, message@, now, template)
                && is_search_outcome(
                template,
                miner.key(),
                nonce_start,
                ATTEMPTS_PER_ROUND,
                found,
            ),
{
    let template = match build_template(chain, mining_address, message, now) {
        Err(e) => {
            return Err(e);
        },
        Ok(block) => block,
    };
    let ghost made = template@;
    let found = mine_range(template, miner, nonce_start, ATTEMPTS_PER_ROUND);
    assert(is_template(chain, mining_address@, message@, now, made) && is_search_outcome(
        made,
        miner.key(),
        nonce_start,
        ATTEMPTS_PER_ROUND,
        found,
    ));
    Ok(found)
}

} // verus!
