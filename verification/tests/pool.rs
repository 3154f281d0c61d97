use wynd_stake::asset::AssetInfoValidated;
use wynd_stake::math::checked_pow10;
use wynd_stake::pool::{
    accumulate_prices, adjust_precision, calc_new_prices, compute_current_amp,
    compute_swap, pools_funded, select_pools, AmpConfig, Decimal256, DecimalAsset, PoolError,
    PriceConfig, PricePoint, Quote, SwapResult, TWAP_PRECISION,
};

fn native(denom: &str) -> AssetInfoValidated {
    AssetInfoValidated::Native(denom.to_string())
}

fn pool(denom: &str, amount: u128) -> DecimalAsset {
    DecimalAsset {
        info: native(denom),
        amount: Decimal256 { high: 0, low: amount },
    }
}

#[test]
fn select_among_two_pools_by_one_side() {
    let pools = [pool("a", 1), pool("b", 2)];
    let a = native("a");
    let b = native("b");
    let c = native("c");
    assert_eq!(select_pools(Some(&a), None, &pools), Ok((pool("a", 1), pool("b", 2))));
    assert_eq!(select_pools(Some(&b), None, &pools), Ok((pool("b", 2), pool("a", 1))));
    assert_eq!(select_pools(None, Some(&a), &pools), Ok((pool("b", 2), pool("a", 1))));
    assert_eq!(select_pools(None, Some(&b), &pools), Ok((pool("a", 1), pool("b", 2))));
    // the offer side decides where both are named
    assert_eq!(select_pools(Some(&b), Some(&b), &pools), Ok((pool("b", 2), pool("a", 1))));
    assert_eq!(select_pools(Some(&c), Some(&a), &pools), Err(PoolError::AssetMismatch {}));
    assert_eq!(select_pools(None, Some(&c), &pools), Err(PoolError::AssetMismatch {}));
    assert_eq!(select_pools(None, None, &pools), Err(PoolError::VariableAssetMissed {}));
}

#[test]
fn select_among_more_pools_needs_both_sides() {
    let pools = [pool("a", 1), pool("b", 2), pool("c", 3)];
    let a = native("a");
    let c = native("c");
    let d = native("d");
    let token_a = AssetInfoValidated::Token("a".to_string());
    assert_eq!(select_pools(Some(&c), Some(&a), &pools), Ok((pool("c", 3), pool("a", 1))));
    assert_eq!(select_pools(Some(&a), Some(&c), &pools), Ok((pool("a", 1), pool("c", 3))));
    assert_eq!(select_pools(Some(&a), Some(&a), &pools), Err(PoolError::SameAssets {}));
    assert_eq!(select_pools(Some(&a), Some(&d), &pools), Err(PoolError::AssetMismatch {}));
    assert_eq!(select_pools(Some(&d), Some(&a), &pools), Err(PoolError::AssetMismatch {}));
    assert_eq!(select_pools(Some(&token_a), Some(&c), &pools), Err(PoolError::AssetMismatch {}));
    assert_eq!(select_pools(Some(&a), None, &pools), Err(PoolError::VariableAssetMissed {}));
    assert_eq!(select_pools(None, Some(&a), &pools), Err(PoolError::VariableAssetMissed {}));
    assert_eq!(select_pools(None, None, &pools), Err(PoolError::VariableAssetMissed {}));
    assert_eq!(select_pools(Some(&a), Some(&c), &[]), Err(PoolError::AssetMismatch {}));
}

#[test]
fn amplification_moves_from_the_initial_to_the_next() {
    let up = AmpConfig { init_amp: 100, init_amp_time: 1000, next_amp: 200, next_amp_time: 2000 };
    assert_eq!(compute_current_amp(&up, 0), Ok(100));
    assert_eq!(compute_current_amp(&up, 1000), Ok(100));
    assert_eq!(compute_current_amp(&up, 1005), Ok(100));
    assert_eq!(compute_current_amp(&up, 1010), Ok(101));
    assert_eq!(compute_current_amp(&up, 1500), Ok(150));
    assert_eq!(compute_current_amp(&up, 1999), Ok(199));
    assert_eq!(compute_current_amp(&up, 2000), Ok(200));
    assert_eq!(compute_current_amp(&up, 9000), Ok(200));
    let down = AmpConfig { init_amp: 200, init_amp_time: 1000, next_amp: 100, next_amp_time: 2000 };
    assert_eq!(compute_current_amp(&down, 1005), Ok(200));
    assert_eq!(compute_current_amp(&down, 1010), Ok(199));
    assert_eq!(compute_current_amp(&down, 1500), Ok(150));
    assert_eq!(compute_current_amp(&down, 2000), Ok(100));
    let level = AmpConfig { init_amp: 7, init_amp_time: 10, next_amp: 7, next_amp_time: 20 };
    assert_eq!(compute_current_amp(&level, 15), Ok(7));
    let sudden = AmpConfig { init_amp: 7, init_amp_time: 30, next_amp: 9, next_amp_time: 20 };
    assert_eq!(compute_current_amp(&sudden, 15), Err(PoolError::DivideByZero {}));
    assert_eq!(compute_current_amp(&sudden, 20), Ok(9));
    let wide = AmpConfig {
        init_amp: 0,
        init_amp_time: 0,
        next_amp: u64::MAX,
        next_amp_time: u64::MAX,
    };
    assert_eq!(compute_current_amp(&wide, u64::MAX - 1), Ok(u64::MAX - 1));
}

#[test]
fn precision_is_adjusted_by_powers_of_ten() {
    assert_eq!(adjust_precision(1234, 6, 6), Ok(1234));
    assert_eq!(adjust_precision(1234, 6, 8), Ok(123400));
    assert_eq!(adjust_precision(1234, 6, 4), Ok(12));
    assert_eq!(adjust_precision(1299, 6, 4), Ok(12));
    assert_eq!(adjust_precision(1234, 6, 0), Ok(0));
    assert_eq!(adjust_precision(u128::MAX, 0, 1), Err(PoolError::Overflow {}));
    assert_eq!(adjust_precision(1, 0, 38), Ok(100_000_000_000_000_000_000_000_000_000_000_000_000));
    assert_eq!(adjust_precision(1, 0, 39), Err(PoolError::Overflow {}));
    assert_eq!(adjust_precision(0, 0, 39), Err(PoolError::Overflow {}));
    assert_eq!(adjust_precision(5, 39, 0), Err(PoolError::Overflow {}));
    assert_eq!(adjust_precision(u128::MAX, 38, 0), Ok(3));
}

#[test]
fn powers_of_ten() {
    assert_eq!(checked_pow10(0), Some(1));
    assert_eq!(checked_pow10(1), Some(10));
    assert_eq!(checked_pow10(18), Some(1_000_000_000_000_000_000));
    assert_eq!(checked_pow10(38), Some(10u128.pow(38)));
    assert_eq!(checked_pow10(39), None);
    assert_eq!(checked_pow10(255), None);
}

#[test]
fn swap_result_counts_the_shortfall_as_spread() {
    assert_eq!(
        compute_swap(1_000, 900, 100),
        Ok(SwapResult { return_amount: 100, spread_amount: 0 })
    );
    assert_eq!(
        compute_swap(1_000, 903, 100),
        Ok(SwapResult { return_amount: 97, spread_amount: 3 })
    );
    assert_eq!(
        compute_swap(1_000, 800, 100),
        Ok(SwapResult { return_amount: 200, spread_amount: 0 })
    );
    assert_eq!(compute_swap(1_000, 1_001, 100), Err(PoolError::Overflow {}));
}

fn prices() -> PriceConfig {
    PriceConfig {
        block_time_last: 1_000,
        cumulative_prices: vec![(native("a"), native("b"), 5), (native("b"), native("a"), u128::MAX)],
    }
}

#[test]
fn prices_accumulate_over_time() {
    let pools = [pool("a", 1), pool("b", 2)];
    let quotes = vec![
        Quote { return_amount: 990_000_000, precision: 9 },
        Quote { return_amount: 1_010, precision: 3 },
    ];
    assert_eq!(TWAP_PRECISION, 6);
    let mut config = prices();
    // the time has not moved on
    assert_eq!(accumulate_prices(&mut config, 1_000, &pools, &quotes), Ok(false));
    assert_eq!(accumulate_prices(&mut config, 999, &pools, &quotes), Ok(false));
    assert_eq!(config.cumulative_prices, prices().cumulative_prices);
    assert_eq!(config.block_time_last, 1_000);
    assert_eq!(accumulate_prices(&mut config, 1_010, &pools, &quotes), Ok(true));
    assert_eq!(config.block_time_last, 1_010);
    // 0.99 and 1.01 in six places, over ten seconds; the second wraps
    assert_eq!(config.cumulative_prices[0].2, 5 + 9_900_000);
    assert_eq!(config.cumulative_prices[1].2, 10_100_000 - 1);
    // an empty pool: only the time is taken
    let mut config = prices();
    let drained = [pool("a", 1), pool("b", 0)];
    assert!(!pools_funded(&drained));
    assert!(pools_funded(&pools));
    assert_eq!(accumulate_prices(&mut config, 1_010, &drained, &quotes), Ok(true));
    assert_eq!(config.cumulative_prices, prices().cumulative_prices);
    assert_eq!(config.block_time_last, 1_010);
    // a failure changes nothing
    let mut config = prices();
    let strange = [pool("a", 1), pool("c", 2), pool("d", 2)];
    assert_eq!(
        accumulate_prices(&mut config, 1_010, &strange, &quotes),
        Err(PoolError::AssetMismatch {})
    );
    let heavy = vec![quotes[0], Quote { return_amount: u128::MAX, precision: 6 }];
    assert_eq!(
        accumulate_prices(&mut config, 1_010, &pools, &heavy),
        Err(PoolError::Overflow {})
    );
    let fine = vec![quotes[0], Quote { return_amount: 1, precision: 0 }];
    let coarse = vec![quotes[0], Quote { return_amount: 1, precision: 50 }];
    assert_eq!(
        accumulate_prices(&mut config, 1_010, &pools, &coarse),
        Err(PoolError::Overflow {})
    );
    assert_eq!(config.cumulative_prices, prices().cumulative_prices);
    assert_eq!(config.block_time_last, 1_000);
    assert_eq!(accumulate_prices(&mut config, 1_001, &pools, &fine), Ok(true));
    assert_eq!(config.cumulative_prices[1].2, 1_000_000 - 1);
}

#[test]
fn new_prices_are_the_quotes() {
    let pools = [pool("a", 1), pool("b", 2)];
    let quotes = vec![
        Quote { return_amount: 990, precision: 3 },
        Quote { return_amount: 1_010, precision: 3 },
    ];
    assert_eq!(
        calc_new_prices(&prices(), &pools, &quotes),
        Ok(vec![
            PricePoint { from: native("a"), to: native("b"), rate: 990 },
            PricePoint { from: native("b"), to: native("a"), rate: 1_010 },
        ])
    );
    assert_eq!(
        calc_new_prices(&prices(), &[pool("a", 0), pool("b", 2)], &quotes),
        Ok(vec![])
    );
    assert_eq!(
        calc_new_prices(&prices(), &[pool("a", 1), pool("c", 2)], &quotes),
        Err(PoolError::AssetMismatch {})
    );
}
