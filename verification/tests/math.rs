use wynd_stake::error::ContractError;
use wynd_stake::math::{mul_floor, Decimal, DECIMAL_FRACTIONAL};
use wynd_stake::stake::{calc_power, rewards_power, Config};

fn config(tokens_per_power: u128, min_bond: u128) -> Config {
    Config {
        cw20_contract: "token".to_string(),
        tokens_per_power,
        min_bond,
        unbonding_periods: vec![1, 2, 3],
        max_distributions: 6,
        admin: None,
        unbonder: None,
    }
}

#[test]
fn decimal_constructors() {
    assert_eq!(Decimal::zero().atomics, 0);
    assert_eq!(Decimal::one().atomics, DECIMAL_FRACTIONAL);
    assert_eq!(Decimal::percent(200).atomics, 2 * DECIMAL_FRACTIONAL);
    assert_eq!(Decimal::permille(416).atomics, 416_000_000_000_000_000);
    assert_eq!(Decimal::new(5).atomics, 5);
    assert_eq!(
        Decimal::percent(u64::MAX).atomics,
        cosmwasm_std::Decimal::percent(u64::MAX).atomics().u128()
    );
    assert_eq!(
        Decimal::permille(u64::MAX).atomics,
        cosmwasm_std::Decimal::permille(u64::MAX).atomics().u128()
    );
    assert!(Decimal::zero().is_zero());
    assert!(!Decimal::new(1).is_zero());
    assert_eq!(Decimal::from_units(3), Some(Decimal::new(3 * DECIMAL_FRACTIONAL)));
    assert_eq!(Decimal::from_units(u128::MAX / DECIMAL_FRACTIONAL + 1), None);
}

#[test]
fn mul_floor_multiplies_in_full_width() {
    assert_eq!(mul_floor(5, Decimal::percent(99)), Some(4));
    assert_eq!(mul_floor(10_000, Decimal::permille(416)), Some(4160));
    assert_eq!(mul_floor(999, Decimal::permille(1)), Some(0));
    // the product passes 128 bits, the quotient does not
    assert_eq!(mul_floor(u128::MAX, Decimal::one()), Some(u128::MAX));
    assert_eq!(mul_floor(u128::MAX, Decimal::percent(50)), Some(u128::MAX / 2));
    assert_eq!(mul_floor(u128::MAX, Decimal::percent(101)), None);
    assert_eq!(mul_floor(u128::MAX, Decimal::new(DECIMAL_FRACTIONAL + 1)), None);
    for (amount, ratio) in [(7u128, 3u64), (123_456_789, 77), (1, 100), (99, 1)] {
        let theirs = cosmwasm_std::Uint128::new(amount)
            .mul_floor(cosmwasm_std::Decimal::percent(ratio))
            .u128();
        assert_eq!(mul_floor(amount, Decimal::percent(ratio)), Some(theirs));
    }
}

#[test]
fn decimal_arithmetic_agrees_with_cosmwasm() {
    for (n, d) in [(1u128, 3u128), (2, 3), (126_144_000, 55), (400 * 31_536_000, 100), (0, 9)] {
        assert_eq!(
            Decimal::from_ratio(n, d).map(|x| x.atomics),
            Some(cosmwasm_std::Decimal::from_ratio(n, d).atomics().u128())
        );
    }
    assert_eq!(Decimal::from_ratio(1, 0), None);
    assert_eq!(Decimal::from_ratio(u128::MAX, 1), None);
    let a = Decimal::new(2_293_527_272_727_272_727_272_727);
    let ca = cosmwasm_std::Decimal::new(cosmwasm_std::Uint128::new(a.atomics));
    for p in [0u64, 50, 100, 300] {
        assert_eq!(
            a.checked_mul(Decimal::percent(p)).map(|x| x.atomics),
            Some((ca * cosmwasm_std::Decimal::percent(p)).atomics().u128())
        );
    }
    assert_eq!(Decimal::new(u128::MAX).checked_mul(Decimal::percent(101)), None);
    assert_eq!(a.checked_div_int(1000), Some(Decimal::new(2_293_527_272_727_272_727_272)));
    assert_eq!(a.checked_div_int(0), None);
}

#[test]
fn power_is_weighted_stake_per_tokens_per_power() {
    let cfg = config(1000, 5000);
    assert_eq!(calc_power(&cfg, 4999, Decimal::one()), Ok(0));
    assert_eq!(calc_power(&cfg, 5000, Decimal::one()), Ok(5));
    assert_eq!(calc_power(&cfg, 5999, Decimal::one()), Ok(5));
    assert_eq!(calc_power(&cfg, 10_000, Decimal::percent(50)), Ok(5));
    assert_eq!(calc_power(&cfg, 10_000, Decimal::percent(300)), Ok(30));
    assert_eq!(calc_power(&cfg, 7_000, Decimal::percent(200)), Ok(14));
    assert_eq!(calc_power(&cfg, 10_000, Decimal::zero()), Ok(0));
    assert_eq!(
        calc_power(&cfg, u128::MAX, Decimal::percent(200)),
        Err(ContractError::Overflow {})
    );
    assert_eq!(calc_power(&cfg, u128::MAX, Decimal::one()), Ok(u128::MAX / 1000));
    let broken = config(0, 5000);
    assert_eq!(calc_power(&broken, 4999, Decimal::one()), Ok(0));
    assert_eq!(calc_power(&broken, 5000, Decimal::one()), Err(ContractError::DivideByZero {}));
    // the overflow comes before the division
    assert_eq!(
        calc_power(&broken, u128::MAX, Decimal::percent(200)),
        Err(ContractError::Overflow {})
    );
}

#[test]
fn power_adds_up_over_the_tiers() {
    let cfg = config(1000, 5000);
    let multipliers = vec![Decimal::percent(50), Decimal::one(), Decimal::percent(300)];
    assert_eq!(rewards_power(&cfg, &vec![10_000, 10_000, 0], &multipliers), Ok(15));
    assert_eq!(rewards_power(&cfg, &vec![0, 10_000, 10_000], &multipliers), Ok(40));
    assert_eq!(rewards_power(&cfg, &vec![4_999, 4_999, 4_999], &multipliers), Ok(0));
    assert_eq!(
        rewards_power(&cfg, &vec![0, 0, u128::MAX], &multipliers),
        Err(ContractError::Overflow {})
    );
    let one = config(1, 0);
    assert_eq!(
        rewards_power(&one, &vec![0, u128::MAX, u128::MAX / 3], &multipliers),
        Err(ContractError::Overflow {})
    );
}

#[test]
fn from_atomics_agrees_with_cosmwasm() {
    let cases = [
        (0u128, 0u32),
        (1, 0),
        (1234, 3),
        (1146763636363636363636, 18),
        (5, 17),
        (123_456_789, 19),
        (123_456_789, 26),
        (123_456_789, 27),
        (u128::MAX, 18),
        (u128::MAX, 19),
        (u128::MAX, 56),
        (u128::MAX, 57),
        (u128::MAX, 300),
        (7, u32::MAX),
    ];
    for (atomics, places) in cases {
        let theirs = cosmwasm_std::Decimal::from_atomics(atomics, places)
            .ok()
            .map(|d| d.atomics().u128());
        assert_eq!(
            Decimal::from_atomics(atomics, places).map(|d| d.atomics),
            theirs,
            "{} with {} places",
            atomics,
            places
        );
    }
    assert_eq!(Decimal::from_atomics(u128::MAX, 17), None);
    assert_eq!(
        Decimal::from_atomics(340_282_366_920_938_463_463, 0),
        Some(Decimal::new(340_282_366_920_938_463_463 * DECIMAL_FRACTIONAL))
    );
    assert_eq!(Decimal::from_atomics(340_282_366_920_938_463_464, 0), None);
    assert_eq!(Decimal::from_atomics(1234, 20), Some(Decimal::new(12)));
}
