use quantum_goldchain::consensus::monetary::MonetaryPolicy;
use quantum_goldchain::error::{ConfigReason, QtcError};

#[test]
fn test_monetary_policy_creation() {
    let policy = MonetaryPolicy::new();
    assert_eq!(policy.initial_reward, 2710000000);
    assert_eq!(policy.halving_interval, 262800);
    assert_eq!(policy.max_supply, 1999999900000000);
}

#[test]
fn test_coinbase_reward_calculation() {
    let policy = MonetaryPolicy::new();

    // Initial reward
    assert_eq!(policy.coinbase_reward(0), 2710000000);

    // After first halving
    let first_halving = policy.halving_interval;
    assert_eq!(policy.coinbase_reward(first_halving), 1355000000);

    // After second halving
    let second_halving = policy.halving_interval * 2;
    assert_eq!(policy.coinbase_reward(second_halving), 677500000);
}

#[test]
fn test_total_supply_calculation() {
    let policy = MonetaryPolicy::new();

    // At genesis
    assert_eq!(policy.total_supply_at_height(0), 0);

    // After first block
    assert_eq!(policy.total_supply_at_height(1), policy.initial_reward);

    // After the halving interval: the heights 1 to interval - 1 at the
    // initial reward, the halving height itself at half of it.
    let expected_supply =
        policy.initial_reward * (policy.halving_interval - 1) + policy.initial_reward / 2;
    assert_eq!(policy.total_supply_at_height(policy.halving_interval), expected_supply);
}

#[test]
fn test_halving_calculations() {
    let policy = MonetaryPolicy::new();

    assert_eq!(policy.halving_epoch(0), 0);
    assert_eq!(policy.halving_epoch(policy.halving_interval), 1);
    assert_eq!(policy.halving_epoch(policy.halving_interval * 2), 2);

    assert_eq!(policy.blocks_until_next_halving(0), policy.halving_interval);
    assert_eq!(policy.blocks_until_next_halving(1), policy.halving_interval - 1);
}

#[test]
fn test_fee_validation() {
    let policy = MonetaryPolicy::new();

    assert!(policy.is_valid_coinbase_reward(0, policy.initial_reward, 0));
    assert!(!policy.is_valid_coinbase_reward(0, policy.initial_reward + 1, 0));
    assert!(policy.is_valid_coinbase_reward(0, policy.initial_reward - 1, 0));
}

#[test]
fn test_dust_threshold() {
    let policy = MonetaryPolicy::new();

    assert!(policy.is_dust(545));
    assert!(!policy.is_dust(546));
    assert!(!policy.is_dust(1000));
}

#[test]
fn test_max_supply_height() {
    let policy = MonetaryPolicy::new();
    let max_height = policy.max_supply_height();

    // Should be a reasonable number of blocks
    assert!(max_height > 0);
    assert!(max_height < 10_000_000); // Less than 10M blocks

    // Halving ends issuance before the cap: the supply at that height stays
    // below it.
    let supply_at_max = policy.total_supply_at_height(max_height);
    assert!(supply_at_max <= policy.max_supply);
    assert_eq!(max_height, 32 * 262800);
}

#[test]
fn supply_sums_the_rewards_of_every_height() {
    let policy = MonetaryPolicy {
        initial_reward: 100,
        halving_interval: 4,
        max_supply: 1_000_000,
        min_fee: 1,
        dust_threshold: 1,
        coinbase_maturity: 1,
    };
    let mut sum: u64 = 0;
    for height in 1..=40u64 {
        sum += policy.coinbase_reward(height);
        assert_eq!(policy.total_supply_at_height(height), sum);
    }
    // Heights 1..=3 pay 100, 4..=7 pay 50, 8..=11 pay 25.
    assert_eq!(policy.total_supply_at_height(3), 300);
    assert_eq!(policy.total_supply_at_height(7), 500);
    assert_eq!(policy.total_supply_at_height(11), 600);
}

#[test]
fn supply_never_exceeds_the_cap_and_stays_there() {
    let policy = MonetaryPolicy {
        initial_reward: 100,
        halving_interval: 4,
        max_supply: 450,
        min_fee: 1,
        dust_threshold: 1,
        coinbase_maturity: 1,
    };
    let mut reached = false;
    for height in 0..=400u64 {
        let supply = policy.total_supply_at_height(height);
        assert!(supply <= policy.max_supply);
        if reached {
            assert_eq!(supply, policy.max_supply);
        }
        if supply == policy.max_supply {
            reached = true;
        }
    }
    assert!(reached);
    // 300 after height 3, then 50 a height: the cap of 450 falls on height 6.
    assert_eq!(policy.max_supply_height(), 6);
    assert_eq!(policy.total_supply_at_height(5), 400);
    assert_eq!(policy.total_supply_at_height(6), 450);
}

#[test]
fn halving_schedule_shifts_the_initial_reward() {
    let policy = MonetaryPolicy::new();
    for k in 0..32u64 {
        assert_eq!(policy.coinbase_reward(k * policy.halving_interval), policy.initial_reward >> k);
    }
    // From the 32nd halving on the shifted reward is zero; one unit is paid
    // while the supply is below the cap.
    assert_eq!(policy.coinbase_reward(32 * policy.halving_interval), 1);
    assert_eq!(policy.coinbase_reward(63 * policy.halving_interval), 1);
    assert_eq!(policy.coinbase_reward(64 * policy.halving_interval), 0);
}

#[test]
fn one_unit_is_paid_only_below_the_cap() {
    let policy = MonetaryPolicy {
        initial_reward: 3,
        halving_interval: 2,
        max_supply: 6,
        min_fee: 1,
        dust_threshold: 1,
        coinbase_maturity: 1,
    };
    // Height 1 pays 3, heights 2 and 3 pay 1, heights 4.. pay one unit
    // until the cap of 6 is reached at height 4.
    assert_eq!(policy.coinbase_reward(1), 3);
    assert_eq!(policy.coinbase_reward(2), 1);
    assert_eq!(policy.coinbase_reward(3), 1);
    assert_eq!(policy.coinbase_reward(4), 1);
    assert_eq!(policy.total_supply_at_height(4), 6);
    assert_eq!(policy.coinbase_reward(5), 0);
    assert_eq!(policy.total_supply_at_height(5), 6);
}

#[test]
fn min_fee_is_the_larger_of_base_and_size_fee() {
    let policy = MonetaryPolicy::new();
    assert_eq!(policy.calculate_min_fee(0), 1000);
    assert_eq!(policy.calculate_min_fee(100), 1000);
    assert_eq!(policy.calculate_min_fee(101), 1010);
    assert_eq!(policy.calculate_min_fee(250), 2500);
    assert_eq!(policy.get_coinbase_maturity(), 100);
    let fees = policy.get_fee_policy();
    assert_eq!(fees.min_fee, 1000);
    assert_eq!(fees.dust_threshold, 546);
    assert_eq!(fees.fee_per_byte, 10);
    assert_eq!(fees.max_fee_multiplier, 1000);
}

#[test]
fn validate_names_the_first_defect() {
    let good = MonetaryPolicy {
        initial_reward: 100,
        halving_interval: 10,
        max_supply: 2000,
        min_fee: 1,
        dust_threshold: 1,
        coinbase_maturity: 1,
    };
    assert_eq!(good.validate(), Ok(()));
    assert_eq!(
        MonetaryPolicy { initial_reward: 0, ..good }.validate(),
        Err(QtcError::Config(ConfigReason::ZeroInitialReward))
    );
    assert_eq!(
        MonetaryPolicy { halving_interval: 0, ..good }.validate(),
        Err(QtcError::Config(ConfigReason::ZeroHalvingInterval))
    );
    assert_eq!(
        MonetaryPolicy { max_supply: 0, ..good }.validate(),
        Err(QtcError::Config(ConfigReason::ZeroMaxSupply))
    );
    assert_eq!(
        MonetaryPolicy { dust_threshold: 0, ..good }.validate(),
        Err(QtcError::Config(ConfigReason::ZeroDustThreshold))
    );
    assert_eq!(
        MonetaryPolicy { max_supply: 2001, ..good }.validate(),
        Err(QtcError::Config(ConfigReason::MaxSupplyUnreachable))
    );
    // The default cap lies above what halving can issue.
    assert_eq!(
        MonetaryPolicy::new().validate(),
        Err(QtcError::Config(ConfigReason::MaxSupplyUnreachable))
    );
}
