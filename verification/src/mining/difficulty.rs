//! Difficulty: how it is retargeted from the times of recent blocks, and
//! what target it stands for.

use crate::error::{ConfigReason, QtcError};
use vstd::arithmetic::div_mod::{lemma_fundamental_div_mod, lemma_hoist_over_denominator};
use vstd::prelude::*;

verus! {

/// Seconds between blocks that retargeting aims at.
pub const TARGET_BLOCK_TIME: u64 = 450;

/// Blocks between two retargets.
pub const ADJUSTMENT_INTERVAL: u64 = 10;

/// The most by which one retarget multiplies or divides the difficulty.
pub const MAX_ADJUSTMENT_FACTOR: u64 = 4;

/// The least difficulty.
pub const MIN_DIFFICULTY: u32 = 6;

/// The greatest difficulty.
pub const MAX_DIFFICULTY: u32 = 255;

/// A difficulty with the compact and the full form of its target. Both
/// forms are informational: blocks are held to the difficulty itself.
#[derive(Clone, Copy, Debug)]
pub struct DifficultyTarget {
    pub difficulty: u32,
    pub target_bits: u32,
    pub target_hash: [u8; 32],
}

/// The parameters of retargeting.
#[derive(Clone, Copy, Debug)]
pub struct DifficultyCalculator {
    pub target_block_time: u64,
    pub adjustment_interval: u64,
    pub max_adjustment_factor: u64,
    pub min_difficulty: u32,
    pub max_difficulty: u32,
}

/// Which way a series of difficulties went.
#[derive(Clone, Copy, Debug, PartialEq, Eq, Structural)]
pub enum DifficultyTrend {
    Increasing,
    Decreasing,
    Stable,
}

/// `n / d` rounded to the nearest integer, halves away from zero, for
/// `n >= 0` and `d > 0`.
pub open spec fn round_div(n: int, d: int) -> int {
    (2 * n + d) / (2 * d)
}

/// The byte at `index` of the full target of `difficulty`: zero in the
/// first `difficulty / 8` bytes, the top `difficulty % 8` bits clear in
/// the byte after them, all bits set from there on.
pub open spec fn target_byte(difficulty: u32, index: int) -> u8 {
    if index < difficulty / 8 {
        0u8
    } else if index == difficulty / 8 && difficulty % 8 > 0 {
        0xFFu8 >> ((difficulty % 8) as u8)
    } else {
        0xFFu8
    }
}

/// The compact form of the target of `difficulty`.
pub open spec fn compact_bits(difficulty: u32) -> u32 {
    if difficulty == 0 {
        0x207FFFFFu32
    } else if difficulty > 256 {
        0u32
    } else if difficulty / 4 >= 24 {
        0x1D00FFFFu32 >> 24u32
    } else {
        0x1D00FFFFu32 >> ((difficulty / 4) as u32)
    }
}

/// The work that a block of `difficulty` stands for: two to the power of
/// the difficulty, of 127 where it is more, and nothing for difficulty 0.
pub open spec fn work_of(difficulty: u32) -> u128 {
    if difficulty == 0 {
        0u128
    } else if difficulty >= 127 {
        1u128 << 127u128
    } else {
        1u128 << (difficulty as u128)
    }
}

/// The trend of a series: by the last ten entries, increasing where the
/// last is more than 1.2 times the first of them, decreasing where it is
/// less than 0.8 times, else stable.
pub open spec fn trend_of(difficulties: Seq<u32>) -> DifficultyTrend {
    if difficulties.len() < 2 {
        DifficultyTrend::Stable
    } else {
        let start = if difficulties.len() > 10 {
            difficulties.len() - 10
        } else {
            0
        };
        let first = difficulties[start] as int;
        let last = difficulties.last() as int;
        if 5 * last > 6 * first {
            DifficultyTrend::Increasing
        } else if 5 * last < 4 * first {
            DifficultyTrend::Decreasing
        } else {
            DifficultyTrend::Stable
        }
    }
}

impl DifficultyCalculator {
    /// The time that the window of `count` block times should span.
    pub open spec fn expected_time(self, count: nat) -> int {
        self.target_block_time * (count - 1)
    }

    /// `current` times the ratio of expected to actual time, the ratio
    /// held between one over the adjustment factor and the factor itself,
    /// rounded to the nearest integer. An actual time below zero, of a
    /// window that runs backwards, gives a ratio below zero, which is held
    /// at one over the factor.
    pub open spec fn scaled(self, current: u32, actual: int, expected: int) -> int {
        if actual < 0 && self.max_adjustment_factor > 0 {
            round_div(current as int, self.max_adjustment_factor as int)
        } else if expected >= self.max_adjustment_factor * actual {
            current * self.max_adjustment_factor
        } else if expected * self.max_adjustment_factor <= actual {
            round_div(current as int, self.max_adjustment_factor as int)
        } else {
            round_div(current * expected, actual)
        }
    }

    /// `value` held between the least and the greatest difficulty.
    pub open spec fn bounded(self, value: int) -> int {
        let raised = if value < self.min_difficulty {
            self.min_difficulty as int
        } else {
            value
        };
        if raised > self.max_difficulty {
            self.max_difficulty as int
        } else {
            raised
        }
    }

    /// The difficulty after `current` for a window of block times: the
    /// current one for fewer than two times or an expected time of zero;
    /// else the scaled and bounded one.
    pub open spec fn next_difficulty(self, current: u32, block_times: Seq<u64>) -> int {
        if block_times.len() < 2 || self.expected_time(block_times.len()) == 0 {
            current as int
        } else {
            self.bounded(
                self.scaled(
                    current,
                    block_times.last() - block_times[0],
                    self.expected_time(block_times.len()),
                ),
            )
        }
    }

    /// The default parameters.
    pub fn new() -> (calculator: Self)
        ensures
            calculator == (DifficultyCalculator {
                target_block_time: TARGET_BLOCK_TIME,
                adjustment_interval: ADJUSTMENT_INTERVAL,
                max_adjustment_factor: MAX_ADJUSTMENT_FACTOR,
                min_difficulty: MIN_DIFFICULTY,
                max_difficulty: MAX_DIFFICULTY,
            }),
    {
        DifficultyCalculator {
            target_block_time: TARGET_BLOCK_TIME,
            adjustment_interval: ADJUSTMENT_INTERVAL,
            max_adjustment_factor: MAX_ADJUSTMENT_FACTOR,
            min_difficulty: MIN_DIFFICULTY,
            max_difficulty: MAX_DIFFICULTY,
        }
    }

    /// Parameters with the default bounds on the difficulty.
    pub fn with_params(
        target_block_time: u64,
        adjustment_interval: u64,
        max_adjustment_factor: u64,
    ) -> (calculator: Self)
        ensures
            calculator == (DifficultyCalculator {
                target_block_time,
                adjustment_interval,
                max_adjustment_factor,
                min_difficulty: MIN_DIFFICULTY,
                max_difficulty: MAX_DIFFICULTY,
            }),
    {
        DifficultyCalculator {
            target_block_time,
            adjustment_interval,
            max_adjustment_factor,
            min_difficulty: MIN_DIFFICULTY,
            max_difficulty: MAX_DIFFICULTY,
        }
    }

    /// The difficulty that follows `current_difficulty` after a window of
    /// block times, the oldest first, whatever the window: one that runs
    /// backwards brings the difficulty down by the adjustment factor.
    pub fn calculate_next_difficulty(&self, current_difficulty: u32, block_times: &[u64]) -> (out:
        Result<u32, QtcError>)
        ensures
            out matches Ok(next) && next == self.next_difficulty(current_difficulty, block_times@),
    {
        if block_times.len() < 2 {
            return Ok(current_difficulty);
        }
        let spanned = Self::calculate_actual_time(block_times);
        proof {
            assert(self.target_block_time * (block_times@.len() - 1) <= 0xFFFF_FFFF_FFFF_FFFF
                * 0xFFFF_FFFF_FFFF_FFFF) by (nonlinear_arith)
                requires
                    0 <= self.target_block_time <= 0xFFFF_FFFF_FFFF_FFFF,
                    0 <= block_times@.len() - 1 <= 0xFFFF_FFFF_FFFF_FFFF,
            ;
            assert(self.target_block_time * (block_times@.len() - 1) >= 0) by (nonlinear_arith)
                requires
                    0 <= self.target_block_time,
                    0 <= block_times@.len() - 1,
            ;
        }
        let expected: u128 = (self.target_block_time as u128) * ((block_times.len() - 1) as u128);
        if expected == 0 {
            return Ok(current_difficulty);
        }
        let scaled = match spanned {
            Some(actual) => self.scale(current_difficulty, actual, expected),
            None => {
                let factor = self.max_adjustment_factor as u128;
                let ghost actual = block_times@.last() - block_times@[0];
                if factor > 0 {
                    let lowered = (2 * (current_difficulty as u128) + factor) / (2 * factor);
                    assert(lowered == self.scaled(current_difficulty, actual, expected as int));
                    lowered
                } else {
                    assert(self.max_adjustment_factor * actual == 0) by (nonlinear_arith)
                        requires
                            self.max_adjustment_factor == 0,
                    ;
                    assert(current_difficulty * self.max_adjustment_factor == 0)
                        by (nonlinear_arith)
                        requires
                            self.max_adjustment_factor == 0,
                    ;
                    assert(0 == self.scaled(current_difficulty, actual, expected as int));
                    0
                }
            },
        };
        assert(scaled == self.scaled(
            current_difficulty,
            block_times@.last() - block_times@[0],
            expected as int,
        ));
        let raised: u128 = if scaled < self.min_difficulty as u128 {
            self.min_difficulty as u128
        } else {
            scaled
        };
        let bounded: u32 = if raised > self.max_difficulty as u128 {
            self.max_difficulty
        } else {
            raised as u32
        };
        Ok(bounded)
    }

    /// `current` scaled by the held ratio of `expected` to `actual`.
    fn scale(&self, current: u32, actual: u64, expected: u128) -> (scaled: u128)
        requires
            expected <= 0xFFFF_FFFF_FFFF_FFFF * 0xFFFF_FFFF_FFFF_FFFF,
        ensures
            scaled == self.scaled(current, actual as int, expected as int),
    {
        let factor = self.max_adjustment_factor;
        proof {
            assert(factor * actual <= 0xFFFF_FFFF_FFFF_FFFF * 0xFFFF_FFFF_FFFF_FFFF)
                by (nonlinear_arith)
                requires
                    0 <= factor <= 0xFFFF_FFFF_FFFF_FFFF,
                    0 <= actual <= 0xFFFF_FFFF_FFFF_FFFF,
            ;
            assert(current * factor <= 0xFFFF_FFFF * 0xFFFF_FFFF_FFFF_FFFF) by (nonlinear_arith)
                requires
                    0 <= factor <= 0xFFFF_FFFF_FFFF_FFFF,
                    0 <= current <= 0xFFFF_FFFF,
            ;
        }
        let ceiling: u128 = (factor as u128) * (actual as u128);
        if expected >= ceiling {
            return (current as u128) * (factor as u128);
        }
        // Here the factor is at least one and the actual time is not zero.
        assert(factor >= 1 && actual >= 1) by (nonlinear_arith)
            requires
                expected < factor * actual,
                expected >= 0,
                factor >= 0,
                actual >= 0,
        ;
        if expected <= actual as u128 {
            proof {
                assert(expected * factor <= 0xFFFF_FFFF_FFFF_FFFF * 0xFFFF_FFFF_FFFF_FFFF)
                    by (nonlinear_arith)
                    requires
                        0 <= factor <= 0xFFFF_FFFF_FFFF_FFFF,
                        0 <= expected <= 0xFFFF_FFFF_FFFF_FFFF,
                ;
            }
            if expected * (factor as u128) <= actual as u128 {
                return (2 * (current as u128) + factor as u128) / (2 * (factor as u128));
            }
        } else {
            proof {
                assert(expected * factor > actual) by (nonlinear_arith)
                    requires
                        expected > actual,
                        factor >= 1,
                        actual >= 0,
                ;
            }
        }
        let whole: u128 = expected / (actual as u128);
        let rest: u128 = expected % (actual as u128);
        proof {
            lemma_fundamental_div_mod(expected as int, actual as int);
            assert(whole < factor) by (nonlinear_arith)
                requires
                    expected == actual * whole + rest,
                    expected < factor * actual,
                    rest >= 0,
                    actual >= 1,
                    whole >= 0,
            ;
            assert(current * whole <= 0xFFFF_FFFF * 0xFFFF_FFFF_FFFF_FFFF) by (nonlinear_arith)
                requires
                    0 <= whole <= 0xFFFF_FFFF_FFFF_FFFF,
                    0 <= current <= 0xFFFF_FFFF,
            ;
            assert(current * rest <= 0xFFFF_FFFF * 0xFFFF_FFFF_FFFF_FFFF) by (nonlinear_arith)
                requires
                    0 <= rest <= 0xFFFF_FFFF_FFFF_FFFF,
                    0 <= current <= 0xFFFF_FFFF,
            ;
            assert(current * rest >= 0) by (nonlinear_arith)
                requires
                    0 <= rest,
                    0 <= current,
            ;
            assert(current * whole >= 0) by (nonlinear_arith)
                requires
                    0 <= whole,
                    0 <= current,
            ;
            let high = current * whole;
            let low = 2 * (current * rest) + actual;
            lemma_hoist_over_denominator(low, high, (2 * actual) as nat);
            assert(low + high * (2 * actual) == 2 * (current * expected) + actual)
                by (nonlinear_arith)
                requires
                    expected == actual * whole + rest,
                    high == current * whole,
                    low == 2 * (current * rest) + actual,
            ;
        }
        (current as u128) * whole + (2 * ((current as u128) * rest) + actual as u128) / (2 * (
        actual as u128))
    }

    /// The time that a window of at least two block times spans, where it
    /// does not run backwards.
    fn calculate_actual_time(block_times: &[u64]) -> (out: Option<u64>)
        requires
            block_times@.len() >= 2,
        ensures
            out is Some <==> block_times@.last() >= block_times@[0],
            out matches Some(t) ==> t == block_times@.last() - block_times@[0],
    {
        let first_time = block_times[0];
        let last_time = block_times[block_times.len() - 1];
        if last_time < first_time {
            return None;
        }
        Some(last_time - first_time)
    }

    /// The target of `difficulty` in both forms.
    pub fn difficulty_to_target(&self, difficulty: u32) -> (target: DifficultyTarget)
        ensures
            target.difficulty == difficulty,
            target.target_bits == compact_bits(difficulty),
            forall|i: int| 0 <= i < 32 ==> target.target_hash@[i] == target_byte(difficulty, i),
    {
        let mut target_hash = [0xFFu8; 32];
        let zero_bytes = difficulty / 8;
        let remaining_bits = difficulty % 8;
        let mut i: usize = 0;
        while i < 32 && i < zero_bytes as usize
            invariant
                i <= 32,
                i <= zero_bytes,
                zero_bytes == difficulty / 8,
                forall|j: int| 0 <= j < i ==> target_hash@[j] == 0,
                forall|j: int| i <= j < 32 ==> target_hash@[j] == 0xFF,
            decreases 32 - i,
        {
            target_hash[i] = 0x00;
            i += 1;
        }
        if zero_bytes < 32 && remaining_bits > 0 {
            let mask: u8 = 0xFFu8 >> (remaining_bits as u8);
            target_hash[zero_bytes as usize] = mask;
        }
        DifficultyTarget {
            difficulty,
            target_bits: self.difficulty_to_bits(difficulty),
            target_hash,
        }
    }

    /// The compact form of the target of `difficulty`.
    pub fn difficulty_to_bits(&self, difficulty: u32) -> (bits: u32)
        ensures
            bits == compact_bits(difficulty),
    {
        if difficulty == 0 {
            return 0x207FFFFF;
        }
        if difficulty > 256 {
            return 0;
        }
        let shift = difficulty / 4;
        if shift >= 24 {
            0x1D00FFFFu32 >> 24u32
        } else {
            0x1D00FFFFu32 >> shift
        }
    }

    /// The difficulty that a compact target stands for: four for each of
    /// its leading zero bits short of 24, and the greatest difficulty for a
    /// target of zero.
    pub fn bits_to_difficulty(&self, bits: u32) -> (difficulty: u32)
        ensures
            difficulty == if bits == 0 {
                self.max_difficulty as int
            } else if vstd::std_specs::bits::u32_leading_zeros(bits) >= 24 {
                0int
            } else {
                (24 - vstd::std_specs::bits::u32_leading_zeros(bits)) * 4
            },
    {
        if bits == 0 {
            return self.max_difficulty;
        }
        let zeros = bits.leading_zeros();
        let capped: u32 = if zeros > 24 {
            24
        } else {
            zeros
        };
        (24 - capped) * 4
    }

    /// The number of blocks from `current_height` to the next retarget,
    /// counting the height itself: the whole interval at a retarget height.
    pub fn time_to_next_adjustment(&self, current_height: u64) -> (blocks: u64)
        requires
            self.adjustment_interval > 0,
        ensures
            blocks == self.adjustment_interval - current_height % self.adjustment_interval,
            1 <= blocks <= self.adjustment_interval,
    {
        let blocks_since_adjustment = current_height % self.adjustment_interval;
        self.adjustment_interval - blocks_since_adjustment
    }

    /// Accepts a difficulty between the least and the greatest.
    pub fn validate_difficulty(&self, difficulty: u32) -> (out: Result<(), QtcError>)
        ensures
            out is Ok <==> self.min_difficulty <= difficulty <= self.max_difficulty,
            out matches Err(e) ==> e == if difficulty < self.min_difficulty {
                QtcError::Config(
                    ConfigReason::DifficultyBelowMinimum {
                        difficulty,
                        minimum: self.min_difficulty,
                    },
                )
            } else {
                QtcError::Config(
                    ConfigReason::DifficultyAboveMaximum {
                        difficulty,
                        maximum: self.max_difficulty,
                    },
                )
            },
    {
        if difficulty < self.min_difficulty {
            return Err(
                QtcError::Config(
                    ConfigReason::DifficultyBelowMinimum {
                        difficulty,
                        minimum: self.min_difficulty,
                    },
                ),
            );
        }
        if difficulty > self.max_difficulty {
            return Err(
                QtcError::Config(
                    ConfigReason::DifficultyAboveMaximum {
                        difficulty,
                        maximum: self.max_difficulty,
                    },
                ),
            );
        }
        Ok(())
    }

    /// Whether `height` is a retarget height: a multiple of the interval
    /// other than zero.
    pub fn should_adjust_difficulty(&self, height: u64) -> (adjust: bool)
        requires
            self.adjustment_interval > 0,
        ensures
            adjust == (height > 0 && height % self.adjustment_interval == 0),
    {
        height > 0 && height % self.adjustment_interval == 0
    }

    /// The work that a block of `difficulty` stands for.
    pub fn calculate_work(&self, difficulty: u32) -> (work: u128)
        ensures
            work == work_of(difficulty),
    {
        if difficulty == 0 {
            return 0;
        }
        if difficulty >= 127 {
            1u128 << 127u128
        } else {
            1u128 << (difficulty as u128)
        }
    }

    /// The target block time, the retarget interval and the adjustment
    /// factor.
    pub fn get_adjustment_params(&self) -> (params: (u64, u64, u64))
        ensures
            params == (self.target_block_time, self.adjustment_interval, self.max_adjustment_factor),
    {
        (self.target_block_time, self.adjustment_interval, self.max_adjustment_factor)
    }

    /// A retarget leaves a valid difficulty within the adjustment factor
    /// of where it was and within the bounds, whatever the window of block
    /// times: for a factor of at least one, a least difficulty that is not
    /// above the greatest, and a current difficulty from which both bounds
    /// can be reached.
    pub proof fn lemma_retarget_clamped(self, current: u32, block_times: Seq<u64>)
        requires
            self.max_adjustment_factor >= 1,
            self.min_difficulty <= self.max_difficulty,
            (current as int) / (self.max_adjustment_factor as int) <= self.max_difficulty,
            self.min_difficulty <= current * self.max_adjustment_factor,
            block_times.len() < 2 || self.expected_time(block_times.len()) == 0
                ==> self.min_difficulty <= current <= self.max_difficulty,
        ensures
            self.next_difficulty(current, block_times) >= self.min_difficulty,
            self.next_difficulty(current, block_times) >= (current as int) / (self.max_adjustment_factor as int),
            self.next_difficulty(current, block_times) <= self.max_difficulty,
            self.next_difficulty(current, block_times) <= current * self.max_adjustment_factor,
    {
        let factor = self.max_adjustment_factor as int;
        let cur = current as int;
        let floor = cur / factor;
        lemma_fundamental_div_mod(cur, factor);
        assert(floor * factor <= cur) by (nonlinear_arith)
            requires
                cur == factor * floor + cur % factor,
                cur % factor >= 0,
        ;
        assert(0 <= floor <= cur) by (nonlinear_arith)
            requires
                cur == factor * floor + cur % factor,
                0 <= cur % factor < factor,
                factor >= 1,
                cur >= 0,
        ;
        assert(cur <= cur * factor) by (nonlinear_arith)
            requires
                factor >= 1,
                cur >= 0,
        ;
        if block_times.len() < 2 || self.expected_time(block_times.len()) == 0 {
        } else {
            let actual = block_times.last() - block_times[0];
            let expected = self.expected_time(block_times.len());
            assert(expected >= 0) by (nonlinear_arith)
                requires
                    expected == self.target_block_time * (block_times.len() - 1),
                    block_times.len() >= 2,
            ;
            self.lemma_scaled_within(current, actual, expected);
        }
    }

    /// The scaled difficulty lies between the current one divided and
    /// multiplied by the adjustment factor.
    pub proof fn lemma_scaled_within(self, current: u32, actual: int, expected: int)
        requires
            self.max_adjustment_factor >= 1,
            expected >= 0,
        ensures
            (current as int) / (self.max_adjustment_factor as int) <= self.scaled(current, actual, expected)
                <= current * self.max_adjustment_factor,
    {
        let factor = self.max_adjustment_factor as int;
        let cur = current as int;
        let floor = cur / factor;
        lemma_fundamental_div_mod(cur, factor);
        assert(floor * factor <= cur && 0 <= floor <= cur && cur <= cur * factor)
            by (nonlinear_arith)
            requires
                cur == factor * floor + cur % factor,
                0 <= cur % factor < factor,
                factor >= 1,
                cur >= 0,
        ;
        if actual < 0 {
            lemma_round_div_bounds(cur, factor);
        } else if expected >= factor * actual {
        } else if expected * factor <= actual {
            lemma_round_div_bounds(cur, factor);
        } else {
            assert(actual >= 1) by (nonlinear_arith)
                requires
                    expected < factor * actual,
                    expected >= 0,
                    factor >= 1,
                    actual >= 0,
            ;
            let n = cur * expected;
            assert(n >= 0) by (nonlinear_arith)
                requires
                    n == cur * expected,
                    cur >= 0,
                    expected >= 0,
            ;
            lemma_round_div_bounds(n, actual);
            // Above: from expected < factor * actual.
            assert(n <= (cur * factor) * actual) by (nonlinear_arith)
                requires
                    n == cur * expected,
                    expected <= factor * actual,
                    cur >= 0,
            ;
            lemma_round_div_at_most(n, actual, cur * factor);
            // Below: from expected * factor > actual and floor * factor <= cur.
            assert(floor * actual <= n) by (nonlinear_arith)
                requires
                    n == cur * expected,
                    expected * factor > actual,
                    floor * factor <= cur,
                    floor >= 0,
                    actual >= 1,
                    expected >= 0,
                    factor >= 1,
            ;
            lemma_round_div_at_least(n, actual, floor);
        }
    }
}

impl Default for DifficultyCalculator {
    fn default() -> (calculator: Self)
        ensures
            calculator == (DifficultyCalculator {
                target_block_time: TARGET_BLOCK_TIME,
                adjustment_interval: ADJUSTMENT_INTERVAL,
                max_adjustment_factor: MAX_ADJUSTMENT_FACTOR,
                min_difficulty: MIN_DIFFICULTY,
                max_difficulty: MAX_DIFFICULTY,
            }),
    {
        DifficultyCalculator::new()
    }
}

/// Rounding lies between the floor and one above it.
pub proof fn lemma_round_div_bounds(n: int, d: int)
    requires
        n >= 0,
        d >= 1,
    ensures
        n / d <= round_div(n, d) <= n / d + 1,
        round_div(n, d) <= n || n == 0 && round_div(n, d) == 0,
{
    lemma_fundamental_div_mod(n, d);
    lemma_fundamental_div_mod(2 * n + d, 2 * d);
    let q = n / d;
    let r = n % d;
    let q2 = (2 * n + d) / (2 * d);
    let r2 = (2 * n + d) % (2 * d);
    assert(q <= q2 <= q + 1) by (nonlinear_arith)
        requires
            n == d * q + r,
            0 <= r < d,
            2 * n + d == (2 * d) * q2 + r2,
            0 <= r2 < 2 * d,
            d >= 1,
    ;
    assert(q2 <= n) by (nonlinear_arith)
        requires
            2 * n + d == (2 * d) * q2 + r2,
            0 <= r2 < 2 * d,
            d >= 1,
            n >= 0,
    ;
}

/// Rounding a quotient that is at most `bound` gives at most `bound`.
pub proof fn lemma_round_div_at_most(n: int, d: int, bound: int)
    requires
        n >= 0,
        d >= 1,
        n <= bound * d,
    ensures
        round_div(n, d) <= bound,
{
    lemma_fundamental_div_mod(2 * n + d, 2 * d);
    let q2 = (2 * n + d) / (2 * d);
    let r2 = (2 * n + d) % (2 * d);
    assert(q2 <= bound) by (nonlinear_arith)
        requires
            2 * n + d == (2 * d) * q2 + r2,
            0 <= r2 < 2 * d,
            d >= 1,
            n <= bound * d,
    ;
}

/// Rounding a quotient that is at least `bound` gives at least `bound`.
pub proof fn lemma_round_div_at_least(n: int, d: int, bound: int)
    requires
        n >= 0,
        d >= 1,
        bound * d <= n,
    ensures
        round_div(n, d) >= bound,
{
    lemma_fundamental_div_mod(2 * n + d, 2 * d);
    let q2 = (2 * n + d) / (2 * d);
    let r2 = (2 * n + d) % (2 * d);
    assert(q2 >= bound) by (nonlinear_arith)
        requires
            2 * n + d == (2 * d) * q2 + r2,
            0 <= r2 < 2 * d,
            d >= 1,
            bound * d <= n,
    ;
}

/// Reads trends from series of difficulties.
pub struct DifficultyAnalyzer;

impl DifficultyAnalyzer {
    /// The trend of a series of difficulties.
    pub fn analyze_difficulty_trend(difficulties: &[u32]) -> (trend: DifficultyTrend)
        ensures
            trend == trend_of(difficulties@),
    {
        if difficulties.len() < 2 {
            return DifficultyTrend::Stable;
        }
        let start: usize = if difficulties.len() > 10 {
            difficulties.len() - 10
        } else {
            0
        };
        let first = difficulties[start] as u64;
        let last = difficulties[difficulties.len() - 1] as u64;
        if 5 * last > 6 * first {
            DifficultyTrend::Increasing
        } else if 5 * last < 4 * first {
            DifficultyTrend::Decreasing
        } else {
            DifficultyTrend::Stable
        }
    }

    /// The difficulty that `calculator` gives after `current_difficulty`
    /// for a window of block times.
    pub fn predict_next_difficulty(
        calculator: &DifficultyCalculator,
        recent_times: &[u64],
        current_difficulty: u32,
    ) -> (out: Result<u32, QtcError>)
        ensures
            out matches Ok(next) && next == calculator.next_difficulty(
                current_difficulty,
                recent_times@,
            ),
    {
        calculator.calculate_next_difficulty(current_difficulty, recent_times)
    }
}

} // verus!
