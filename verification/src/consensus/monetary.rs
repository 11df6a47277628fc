//! Monetary policy: the reward of each height, the supply issued up to it,
//! and the fee and dust rules.

use crate::error::{ConfigReason, QtcError};
use vstd::arithmetic::div_mod::{lemma_fundamental_div_mod, lemma_fundamental_div_mod_converse};
use vstd::arithmetic::mul::{lemma_mul_inequality, lemma_mul_is_commutative};
use vstd::prelude::*;

verus! {

/// The reward of the first heights, in atomic units.
pub const DEFAULT_INITIAL_REWARD: u64 = 2710000000;

/// The number of heights between two halvings.
pub const DEFAULT_HALVING_INTERVAL: u64 = 262800;

/// The cap on the supply, in atomic units.
pub const DEFAULT_MAX_SUPPLY: u64 = 1999999900000000;

/// The least fee.
pub const DEFAULT_MIN_FEE: u64 = 1000;

/// The value below which an output is dust.
pub const DEFAULT_DUST_THRESHOLD: u64 = 546;

/// The number of blocks after which a coinbase output may be spent.
pub const DEFAULT_COINBASE_MATURITY: u64 = 100;

/// The fee per byte of an encoded transaction.
pub const FEE_PER_BYTE: u64 = 10;

/// The number of halvings from which on nothing is issued.
pub const MAX_HALVINGS: u64 = 64;

/// The parameters of issuance and fees.
#[derive(Clone, Copy, Debug)]
pub struct MonetaryPolicy {
    pub initial_reward: u64,
    pub halving_interval: u64,
    pub max_supply: u64,
    pub min_fee: u64,
    pub dust_threshold: u64,
    pub coinbase_maturity: u64,
}

/// What transactions are held to.
#[derive(Clone, Copy, Debug, PartialEq, Eq, Structural)]
pub struct FeePolicy {
    pub min_fee: u64,
    pub dust_threshold: u64,
    pub fee_per_byte: u64,
    pub max_fee_multiplier: u64,
}

impl MonetaryPolicy {
    /// A policy can be applied where its halving interval is not zero.
    pub open spec fn well_formed(self) -> bool {
        self.halving_interval > 0
    }

    /// The number of halvings before `height`.
    pub open spec fn halvings(self, height: int) -> int {
        height / (self.halving_interval as int)
    }

    /// The initial reward halved once per halving, nothing from 64
    /// halvings on.
    pub open spec fn halved_reward(self, height: int) -> u64 {
        if self.halvings(height) >= MAX_HALVINGS {
            0
        } else {
            self.initial_reward >> (self.halvings(height) as u64)
        }
    }

    /// What is issued at `height` while the cap is not reached: the halved
    /// reward, but at least one unit before 64 halvings.
    pub open spec fn issued_at(self, height: int) -> int {
        if self.halvings(height) >= MAX_HALVINGS {
            0
        } else if self.halved_reward(height) == 0 {
            1
        } else {
            self.halved_reward(height) as int
        }
    }

    /// The sum of what is issued at the heights `1..=height`, the cap left
    /// aside. Height 0, the genesis block, receives nothing.
    pub open spec fn uncapped_supply(self, height: nat) -> int
        decreases height,
    {
        if height == 0 {
            0
        } else {
            self.uncapped_supply((height - 1) as nat) + self.issued_at(height as int)
        }
    }

    /// The supply at `height`: what the heights `1..=height` issued, held
    /// at the cap.
    pub open spec fn total_supply_at(self, height: nat) -> int {
        if self.uncapped_supply(height) <= self.max_supply {
            self.uncapped_supply(height)
        } else {
            self.max_supply as int
        }
    }

    /// The supply before `height` is mined.
    pub open spec fn supply_before(self, height: nat) -> int {
        if height == 0 {
            0
        } else {
            self.total_supply_at((height - 1) as nat)
        }
    }

    /// The reward of the block at `height`: the halved reward; one unit
    /// where halving has brought it to zero and the supply before the
    /// block is below the cap; nothing from 64 halvings on.
    pub open spec fn reward_at(self, height: nat) -> int {
        if self.halvings(height as int) >= MAX_HALVINGS {
            0
        } else if self.halved_reward(height as int) == 0 && self.supply_before(height)
            < self.max_supply {
            1
        } else {
            self.halved_reward(height as int) as int
        }
    }

    /// Whether the supply has reached the cap at `height`.
    pub open spec fn reaches_cap(self, height: int) -> bool {
        height >= 0 && self.uncapped_supply(height as nat) >= self.max_supply
    }

    /// The first epoch from `epoch` on in which the halved reward is zero;
    /// 64 where there is none before.
    pub open spec fn zero_epoch_from(self, epoch: int) -> int
        decreases MAX_HALVINGS - epoch,
    {
        if epoch >= MAX_HALVINGS || epoch < 0 {
            MAX_HALVINGS as int
        } else if (self.initial_reward >> (epoch as u64)) == 0 {
            epoch
        } else {
            self.zero_epoch_from(epoch + 1)
        }
    }

    /// The height at which halving has run out: the first height of the
    /// first epoch in which the halved reward is zero.
    pub open spec fn schedule_end(self) -> int {
        self.zero_epoch_from(0) * self.halving_interval
    }

    /// Whether `height` is where issuance ends: the least height at which
    /// the supply has reached the cap, where that lies before the end of
    /// halving, and the end of halving otherwise.
    pub open spec fn is_supply_end(self, height: int) -> bool {
        &&& 0 <= height <= self.schedule_end()
        &&& forall|h: int| 0 <= h < height ==> !#[trigger] self.reaches_cap(h)
        &&& height < self.schedule_end() ==> self.reaches_cap(height)
    }

    /// The least fee for an encoded size: the minimum fee or ten units per
    /// byte, whichever is more.
    pub open spec fn min_fee_for(self, size: nat) -> int {
        if self.min_fee >= size * FEE_PER_BYTE {
            self.min_fee as int
        } else {
            size * FEE_PER_BYTE
        }
    }

    /// Twice the initial reward times the halving interval, which no
    /// amount of halving can issue more than; held at `u64::MAX`.
    pub open spec fn theoretical_max_supply(self) -> int {
        if self.initial_reward * self.halving_interval * 2 <= u64::MAX {
            self.initial_reward * self.halving_interval * 2
        } else {
            u64::MAX as int
        }
    }

    /// The first reason for which the parameters are refused, if any.
    pub open spec fn defect(self) -> Option<ConfigReason> {
        if self.initial_reward == 0 {
            Some(ConfigReason::ZeroInitialReward)
        } else if self.halving_interval == 0 {
            Some(ConfigReason::ZeroHalvingInterval)
        } else if self.max_supply == 0 {
            Some(ConfigReason::ZeroMaxSupply)
        } else if self.dust_threshold == 0 {
            Some(ConfigReason::ZeroDustThreshold)
        } else if self.theoretical_max_supply() < self.max_supply {
            Some(ConfigReason::MaxSupplyUnreachable)
        } else {
            None
        }
    }

    /// The default policy.
    pub fn new() -> (policy: Self)
        ensures
            policy.initial_reward == DEFAULT_INITIAL_REWARD,
            policy.halving_interval == DEFAULT_HALVING_INTERVAL,
            policy.max_supply == DEFAULT_MAX_SUPPLY,
            policy.min_fee == DEFAULT_MIN_FEE,
            policy.dust_threshold == DEFAULT_DUST_THRESHOLD,
            policy.coinbase_maturity == DEFAULT_COINBASE_MATURITY,
            policy.well_formed(),
    {
        MonetaryPolicy {
            initial_reward: DEFAULT_INITIAL_REWARD,
            halving_interval: DEFAULT_HALVING_INTERVAL,
            max_supply: DEFAULT_MAX_SUPPLY,
            min_fee: DEFAULT_MIN_FEE,
            dust_threshold: DEFAULT_DUST_THRESHOLD,
            coinbase_maturity: DEFAULT_COINBASE_MATURITY,
        }
    }

    /// The reward of the block at `height`.
    pub fn coinbase_reward(&self, height: u64) -> (reward: u64)
        requires
            self.well_formed(),
        ensures
            reward == self.reward_at(height as nat),
    {
        let halvings = height / self.halving_interval;
        if halvings >= MAX_HALVINGS {
            return 0;
        }
        let reward = self.initial_reward >> halvings;
        if reward == 0 {
            let before = if height == 0 {
                0
            } else {
                self.total_supply_at_height(height - 1)
            };
            if before < self.max_supply {
                return 1;
            }
        }
        reward
    }

    /// The supply at `height`.
    pub fn total_supply_at_height(&self, height: u64) -> (supply: u64)
        requires
            self.well_formed(),
        ensures
            supply == self.total_supply_at(height as nat),
    {
        let interval = self.halving_interval;
        let mut done: u64 = 0;
        let mut acc: u64 = 0;
        while done < height
            invariant
                self.well_formed(),
                interval == self.halving_interval,
                done <= height,
                acc == self.uncapped_supply(done as nat),
                acc <= self.max_supply,
            decreases height - done,
        {
            let next = done + 1;
            let epoch = next / interval;
            if epoch >= MAX_HALVINGS {
                proof {
                    self.lemma_nothing_after_last_halving(done as nat, height as nat);
                }
                return acc;
            }
            let halved = self.initial_reward >> epoch;
            let reward: u64 = if halved == 0 {
                1
            } else {
                halved
            };
            proof {
                lemma_epoch_bounds(next as int, interval as int);
                lemma_mul_inequality(epoch as int, 63, interval as int);
            }
            let epoch_end: u128 = (epoch as u128) * (interval as u128) + (interval as u128 - 1);
            let end: u64 = if epoch_end >= height as u128 {
                height
            } else {
                epoch_end as u64
            };
            let count: u64 = end - done;
            proof {
                assert forall|k: int| done < k <= end implies #[trigger] self.issued_at(k)
                    == reward by {
                    lemma_epoch_of(k, epoch as int, interval as int);
                }
                self.lemma_constant_run(done as nat, end as nat, reward as int);
                self.lemma_supply_monotone(end as nat, height as nat);
                assert(reward * count <= 0xFFFF_FFFF_FFFF_FFFF * 0xFFFF_FFFF_FFFF_FFFF)
                    by (nonlinear_arith)
                    requires
                        0 <= reward <= 0xFFFF_FFFF_FFFF_FFFF,
                        0 <= count <= 0xFFFF_FFFF_FFFF_FFFF,
                ;
            }
            let add: u128 = (reward as u128) * (count as u128);
            if acc as u128 + add >= self.max_supply as u128 {
                return self.max_supply;
            }
            acc = (acc as u128 + add) as u64;
            done = end;
        }
        acc
    }

    /// The height at which issuance ends: the least height at which the
    /// supply has reached the cap, where that lies before the end of
    /// halving, and the end of halving otherwise; held at `u64::MAX`.
    pub fn max_supply_height(&self) -> (height: u64)
        requires
            self.well_formed(),
        ensures
            exists|end: int|
                self.is_supply_end(end) && height == if end <= u64::MAX {
                    end
                } else {
                    u64::MAX as int
                },
    {
        let interval = self.halving_interval;
        if self.max_supply == 0 {
            proof {
                self.lemma_zero_epoch_bounds(0);
                assert(self.reaches_cap(0));
                assert(self.schedule_end() >= 0) by (nonlinear_arith)
                    requires
                        self.schedule_end() == self.zero_epoch_from(0) * self.halving_interval,
                        self.zero_epoch_from(0) >= 0,
                        self.halving_interval >= 0,
                ;
                assert(self.is_supply_end(0));
            }
            return 0;
        }
        let mut epoch: u64 = 0;
        let mut acc: u64 = 0;
        // The last height of the epochs before `epoch`.
        let mut done: u128 = 0;
        proof {
            self.lemma_zero_epoch_bounds(0);
        }
        while epoch < MAX_HALVINGS
            invariant
                self.well_formed(),
                interval == self.halving_interval,
                self.max_supply > 0,
                epoch <= MAX_HALVINGS,
                self.zero_epoch_from(0) == self.zero_epoch_from(epoch as int),
                done == if epoch == 0 {
                    0
                } else {
                    epoch * interval - 1
                },
                acc == self.uncapped_supply(done as nat),
                acc < self.max_supply,
            decreases MAX_HALVINGS - epoch,
        {
            let halved = self.initial_reward >> epoch;
            proof {
                assert(epoch * interval <= 64 * 0xFFFF_FFFF_FFFF_FFFF) by (nonlinear_arith)
                    requires
                        0 <= epoch <= 64,
                        0 <= interval <= 0xFFFF_FFFF_FFFF_FFFF,
                ;
                assert(epoch * interval >= epoch) by (nonlinear_arith)
                    requires
                        0 <= epoch,
                        1 <= interval,
                ;
            }
            let first: u128 = (epoch as u128) * (interval as u128);
            if halved == 0 {
                proof {
                    assert(self.zero_epoch_from(epoch as int) == epoch);
                    assert(self.schedule_end() == first);
                    assert forall|h: int| 0 <= h < first implies !#[trigger] self.reaches_cap(
                        h,
                    ) by {
                        self.lemma_supply_monotone(h as nat, done as nat);
                    }
                    assert(self.is_supply_end(first as int));
                }
                return if first > u64::MAX as u128 {
                    u64::MAX
                } else {
                    first as u64
                };
            }
            let last: u128 = first + (interval as u128 - 1);
            let count: u128 = last - done;
            let ghost base: int = epoch * interval;
            proof {
                assert(first == base);
                assert(last == base + interval - 1);
                assert(done + 1 >= base);
                assert forall|k: int| done < k <= last implies #[trigger] self.issued_at(k)
                    == halved by {
                    assert(base <= k <= base + interval - 1);
                    lemma_epoch_of(k, epoch as int, interval as int);
                }
                self.lemma_constant_run(done as nat, last as nat, halved as int);
                assert(halved * count <= 0xFFFF_FFFF_FFFF_FFFF * 0x1_0000_0000_0000_0000)
                    by (nonlinear_arith)
                    requires
                        0 <= halved <= 0xFFFF_FFFF_FFFF_FFFF,
                        0 <= count <= 0x1_0000_0000_0000_0000,
                ;
                assert(halved * count >= 0) by (nonlinear_arith)
                    requires
                        0 <= halved,
                        0 <= count,
                ;
            }
            let add: u128 = (halved as u128) * count;
            if acc as u128 + add >= self.max_supply as u128 {
                let need: u128 = (self.max_supply - acc) as u128;
                let steps: u128 = (need + (halved as u128 - 1)) / (halved as u128);
                proof {
                    lemma_fundamental_div_mod(need + halved - 1, halved as int);
                    let rem = (need + halved - 1) % (halved as int);
                    assert(halved * steps >= need && halved * (steps - 1) < need && steps >= 1)
                        by (nonlinear_arith)
                        requires
                            need + halved - 1 == halved * steps + rem,
                            0 <= rem < halved,
                            need >= 1,
                            halved >= 1,
                    ;
                    assert(steps <= count) by (nonlinear_arith)
                        requires
                            halved * (steps - 1) < need,
                            halved * count >= need,
                            halved >= 1,
                            steps >= 1,
                            count >= 0,
                    ;
                }
                let found: u128 = done + steps;
                proof {
                    assert forall|k: int| done < k <= found implies #[trigger] self.issued_at(k)
                        == halved by {
                        assert(base <= k <= base + interval - 1);
                        lemma_epoch_of(k, epoch as int, interval as int);
                    }
                    self.lemma_constant_run(done as nat, found as nat, halved as int);
                    assert(self.reaches_cap(found as int));
                    assert forall|h: int| 0 <= h < found implies !#[trigger] self.reaches_cap(
                        h,
                    ) by {
                        if h <= done {
                            self.lemma_supply_monotone(h as nat, done as nat);
                        } else {
                            assert forall|k: int| done < k <= h implies #[trigger] self.issued_at(
                                k,
                            ) == halved by {
                                assert(base <= k <= base + interval - 1);
                                lemma_epoch_of(k, epoch as int, interval as int);
                            }
                            self.lemma_constant_run(done as nat, h as nat, halved as int);
                            assert(halved * (h - done) < need) by (nonlinear_arith)
                                requires
                                    halved * (steps - 1) < need,
                                    h - done <= steps - 1,
                                    halved >= 1,
                            ;
                        }
                    }
                    self.lemma_zero_epoch_after(epoch as int);
                    assert(found < self.schedule_end()) by (nonlinear_arith)
                        requires
                            self.schedule_end() == self.zero_epoch_from(0) * interval,
                            self.zero_epoch_from(0) >= epoch + 1,
                            found <= epoch * interval + interval - 1,
                            interval >= 1,
                    ;
                    assert(self.is_supply_end(found as int));
                }
                return if found > u64::MAX as u128 {
                    u64::MAX
                } else {
                    found as u64
                };
            }
            acc = (acc as u128 + add) as u64;
            done = last;
            epoch = epoch + 1;
            proof {
                assert(epoch * interval - 1 == last) by (nonlinear_arith)
                    requires
                        last == (epoch - 1) * interval + interval - 1,
                ;
            }
        }
        proof {
            assert(self.zero_epoch_from(64) == 64);
            assert(self.schedule_end() == 64 * interval);
            assert forall|h: int| 0 <= h < 64 * interval implies !#[trigger] self.reaches_cap(
                h,
            ) by {
                self.lemma_supply_monotone(h as nat, done as nat);
            }
            assert(self.is_supply_end(64 * interval));
        }
        let end: u128 = 64 * (interval as u128);
        if end > u64::MAX as u128 {
            u64::MAX
        } else {
            end as u64
        }
    }

    /// The first epoch with a halved reward of zero lies between the epoch
    /// from which it is sought and 64.
    pub proof fn lemma_zero_epoch_bounds(self, epoch: int)
        requires
            0 <= epoch <= MAX_HALVINGS,
        ensures
            epoch <= self.zero_epoch_from(epoch) <= MAX_HALVINGS,
        decreases MAX_HALVINGS - epoch,
    {
        if epoch < MAX_HALVINGS && (self.initial_reward >> (epoch as u64)) != 0 {
            self.lemma_zero_epoch_bounds(epoch + 1);
        }
    }

    /// Past an epoch with a halved reward that is not zero, the first
    /// epoch with one of zero is sought from the next.
    pub proof fn lemma_zero_epoch_after(self, epoch: int)
        requires
            0 <= epoch < MAX_HALVINGS,
            (self.initial_reward >> (epoch as u64)) != 0,
        ensures
            self.zero_epoch_from(epoch) == self.zero_epoch_from(epoch + 1),
            self.zero_epoch_from(epoch) >= epoch + 1,
    {
        self.lemma_zero_epoch_bounds(epoch + 1);
    }

    /// The number of halvings before `height`.
    pub fn halving_epoch(&self, height: u64) -> (epoch: u64)
        requires
            self.well_formed(),
        ensures
            epoch == self.halvings(height as int),
    {
        height / self.halving_interval
    }

    /// The number of blocks from `height` to the next halving, counting
    /// `height` itself: the whole interval at a halving height.
    pub fn blocks_until_next_halving(&self, height: u64) -> (blocks: u64)
        requires
            self.well_formed(),
        ensures
            blocks == self.halving_interval - height % self.halving_interval,
            1 <= blocks <= self.halving_interval,
    {
        self.halving_interval - (height % self.halving_interval)
    }

    /// Whether a coinbase may pay out `reward` at `height` given the fees of
    /// its block: no more than the reward of the height and the fees.
    pub fn is_valid_coinbase_reward(&self, height: u64, reward: u64, total_fees: u64) -> (valid:
        bool)
        requires
            self.well_formed(),
        ensures
            valid == (reward <= self.reward_at(height as nat) + total_fees),
    {
        let expected = self.coinbase_reward(height);
        reward as u128 <= expected as u128 + total_fees as u128
    }

    /// The fee policy that goes with this monetary policy.
    pub fn get_fee_policy(&self) -> (policy: FeePolicy)
        ensures
            policy == (FeePolicy {
                min_fee: self.min_fee,
                dust_threshold: self.dust_threshold,
                fee_per_byte: FEE_PER_BYTE,
                max_fee_multiplier: 1000,
            }),
    {
        FeePolicy {
            min_fee: self.min_fee,
            dust_threshold: self.dust_threshold,
            fee_per_byte: FEE_PER_BYTE,
            max_fee_multiplier: 1000,
        }
    }

    /// The least fee for a transaction of `tx_size` encoded bytes, held at
    /// `u64::MAX` where it would pass it.
    pub fn calculate_min_fee(&self, tx_size: usize) -> (fee: u64)
        ensures
            fee == if self.min_fee_for(tx_size as nat) <= u64::MAX {
                self.min_fee_for(tx_size as nat)
            } else {
                u64::MAX as int
            },
    {
        let size_fee: u128 = (tx_size as u128) * (FEE_PER_BYTE as u128);
        if size_fee > u64::MAX as u128 {
            u64::MAX
        } else if size_fee as u64 > self.min_fee {
            size_fee as u64
        } else {
            self.min_fee
        }
    }

    /// Whether an output of `value` is dust.
    pub fn is_dust(&self, value: u64) -> (dust: bool)
        ensures
            dust == (value < self.dust_threshold),
    {
        value < self.dust_threshold
    }

    pub fn get_coinbase_maturity(&self) -> (maturity: u64)
        ensures
            maturity == self.coinbase_maturity,
    {
        self.coinbase_maturity
    }

    /// Accepts the parameters or names the first defect: a zero initial
    /// reward, halving interval, maximum supply or dust threshold, or a
    /// maximum supply above what halving can issue.
    pub fn validate(&self) -> (out: Result<(), QtcError>)
        ensures
            out is Ok <==> self.defect() is None,
            out matches Err(e) ==> Some(e) == (match self.defect() {
                Some(reason) => Some(QtcError::Config(reason)),
                None => None,
            }),
            out is Ok ==> self.well_formed(),
    {
        if self.initial_reward == 0 {
            return Err(QtcError::Config(ConfigReason::ZeroInitialReward));
        }
        if self.halving_interval == 0 {
            return Err(QtcError::Config(ConfigReason::ZeroHalvingInterval));
        }
        if self.max_supply == 0 {
            return Err(QtcError::Config(ConfigReason::ZeroMaxSupply));
        }
        if self.dust_threshold == 0 {
            return Err(QtcError::Config(ConfigReason::ZeroDustThreshold));
        }
        let theoretical_max = self.calculate_theoretical_max_supply();
        if theoretical_max < self.max_supply {
            return Err(QtcError::Config(ConfigReason::MaxSupplyUnreachable));
        }
        Ok(())
    }

    /// Twice the initial reward times the halving interval, held at
    /// `u64::MAX`.
    pub fn calculate_theoretical_max_supply(&self) -> (supply: u64)
        ensures
            supply == self.theoretical_max_supply(),
    {
        proof {
            assert(self.initial_reward * self.halving_interval <= 0xFFFF_FFFF_FFFF_FFFF
                * 0xFFFF_FFFF_FFFF_FFFF) by (nonlinear_arith)
                requires
                    0 <= self.initial_reward <= 0xFFFF_FFFF_FFFF_FFFF,
                    0 <= self.halving_interval <= 0xFFFF_FFFF_FFFF_FFFF,
            ;
            assert(self.initial_reward * self.halving_interval >= 0) by (nonlinear_arith)
                requires
                    0 <= self.initial_reward,
                    0 <= self.halving_interval,
            ;
        }
        let product: u128 = (self.initial_reward as u128) * (self.halving_interval as u128);
        if product > 0x7FFF_FFFF_FFFF_FFFF {
            u64::MAX
        } else {
            (product * 2) as u64
        }
    }

    /// Between two heights at each of which the same amount is issued, the
    /// uncapped supply grows by that amount per height.
    pub proof fn lemma_constant_run(self, from: nat, to: nat, amount: int)
        requires
            from <= to,
            forall|k: int| from < k <= to ==> #[trigger] self.issued_at(k) == amount,
        ensures
            self.uncapped_supply(to) == self.uncapped_supply(from) + amount * (to - from),
        decreases to - from,
    {
        if from < to {
            self.lemma_constant_run(from, (to - 1) as nat, amount);
            assert(amount * (to - from) == amount * (to - 1 - from) + amount) by (nonlinear_arith);
        } else {
            assert(amount * (to - from) == 0) by (nonlinear_arith)
                requires
                    to - from == 0,
            ;
        }
    }

    /// The uncapped supply never falls.
    pub proof fn lemma_supply_monotone(self, from: nat, to: nat)
        requires
            from <= to,
        ensures
            0 <= self.uncapped_supply(from) <= self.uncapped_supply(to),
        decreases to,
    {
        if to > 0 {
            if from < to {
                self.lemma_supply_monotone(from, (to - 1) as nat);
            } else {
                self.lemma_supply_monotone((from - 1) as nat, (to - 1) as nat);
            }
        }
    }

    /// From 64 halvings on nothing is issued.
    pub proof fn lemma_nothing_after_last_halving(self, from: nat, to: nat)
        requires
            self.well_formed(),
            from <= to,
            (from as int + 1) / (self.halving_interval as int) >= MAX_HALVINGS,
        ensures
            self.uncapped_supply(to) == self.uncapped_supply(from),
        decreases to - from,
    {
        if from < to {
            self.lemma_nothing_after_last_halving(from, (to - 1) as nat);
            vstd::arithmetic::div_mod::lemma_div_is_ordered(
                (from + 1) as int,
                to as int,
                self.halving_interval as int,
            );
        }
    }

    /// The supply never exceeds the cap, and once it has reached the cap
    /// it stays there.
    pub proof fn lemma_supply_cap(self, earlier: nat, later: nat)
        requires
            earlier <= later,
        ensures
            self.total_supply_at(earlier) <= self.max_supply,
            self.total_supply_at(later) <= self.max_supply,
            self.total_supply_at(earlier) <= self.total_supply_at(later),
            self.total_supply_at(earlier) == self.max_supply ==> self.total_supply_at(later)
                == self.max_supply,
    {
        self.lemma_supply_monotone(earlier, later);
    }

    /// At the height of the `k`-th halving the reward is the initial reward
    /// shifted right by `k`, except where that is zero while the supply is
    /// still below the cap: there one unit is paid.
    pub proof fn lemma_halving_schedule(self, k: u64)
        requires
            self.well_formed(),
            k < MAX_HALVINGS,
            k * self.halving_interval <= u64::MAX,
            (self.initial_reward >> k) != 0 || self.supply_before(
                (k * self.halving_interval) as nat,
            ) >= self.max_supply,
        ensures
            self.reward_at((k * self.halving_interval) as nat) == (self.initial_reward >> k),
    {
        lemma_mul_is_commutative(k as int, self.halving_interval as int);
        vstd::arithmetic::div_mod::lemma_div_multiples_vanish(
            k as int,
            self.halving_interval as int,
        );
    }
}

impl Default for MonetaryPolicy {
    fn default() -> (policy: Self)
        ensures
            policy.initial_reward == DEFAULT_INITIAL_REWARD,
            policy.halving_interval == DEFAULT_HALVING_INTERVAL,
            policy.max_supply == DEFAULT_MAX_SUPPLY,
            policy.min_fee == DEFAULT_MIN_FEE,
            policy.dust_threshold == DEFAULT_DUST_THRESHOLD,
            policy.coinbase_maturity == DEFAULT_COINBASE_MATURITY,
    {
        MonetaryPolicy::new()
    }
}

/// A height lies between the first and the last height of its epoch.
pub proof fn lemma_epoch_bounds(height: int, interval: int)
    requires
        0 <= height,
        0 < interval,
    ensures
        0 <= height / interval,
        (height / interval) * interval <= height <= (height / interval) * interval + interval - 1,
{
    lemma_fundamental_div_mod(height, interval);
    lemma_mul_is_commutative(height / interval, interval);
    vstd::arithmetic::div_mod::lemma_div_pos_is_pos(height, interval);
}

/// A height between the first and the last height of an epoch belongs to
/// it.
pub proof fn lemma_epoch_of(height: int, epoch: int, interval: int)
    requires
        0 < interval,
        epoch * interval <= height <= epoch * interval + interval - 1,
    ensures
        height / interval == epoch,
{
    lemma_fundamental_div_mod_converse(height, interval, epoch, height - epoch * interval);
}

} // verus!
