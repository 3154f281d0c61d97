use wynd_stake::asset::{Asset, AssetInfo, AssetInfoValidated};
use wynd_stake::bank::Coin;
use wynd_stake::curve::{Curve, CurveError};
use wynd_stake::error::ContractError;
use wynd_stake::gauge::{create_distribute_msgs, instantiate, DistributeMsg, InstantiateMsg};
use wynd_stake::math::Decimal;
use wynd_stake::scalable_curve::{ScalableCurve, ScalableLinear, ScalablePiecewise};

const EPOCH_LENGTH: u64 = 86_400;

#[test]
fn proper_initialization() {
    let amount = 1000u64;
    let msg = InstantiateMsg {
        factory: "factory".to_string(),
        owner: "owner".to_string(),
        rewards_asset: Asset {
            info: AssetInfo::Native("juno".to_string()),
            amount: amount.into(),
        },
        epoch_length: EPOCH_LENGTH,
    };
    let config = instantiate(msg);

    // check if the config is stored
    assert_eq!(config.factory, "factory");
    assert_eq!(
        config.rewards_asset.info,
        AssetInfoValidated::Native("juno".to_string())
    );
    assert_eq!(config.rewards_asset.amount, 1000);
}

#[test]
fn basic_sample() {
    let amount = 10_000u64;

    let config = instantiate(InstantiateMsg {
        factory: "factory".to_string(),
        owner: "owner".to_string(),
        rewards_asset: Asset {
            info: AssetInfo::Native("juno".to_string()),
            amount: amount.into(),
        },
        epoch_length: EPOCH_LENGTH,
    });

    let selected = vec![
        ("juno1555".to_string(), Decimal::permille(416)),
        ("juno1444".to_string(), Decimal::permille(333)),
        ("juno1333".to_string(), Decimal::permille(250)),
    ];
    let res = config.sample_gauge_msgs(selected).unwrap();
    assert_eq!(res.len(), 3);
    assert_eq!(
        res[0],
        DistributeMsg::FundDistribution {
            contract: "juno1555".to_string(),
            curve: Curve::saturating_linear((0, 4160u128), (EPOCH_LENGTH, 0)),
            funds: Coin {
                denom: "juno".to_string(),
                amount: 4160u128
            },
        }
    );
    assert_eq!(
        res[1],
        DistributeMsg::FundDistribution {
            contract: "juno1444".to_string(),
            curve: Curve::saturating_linear((0, 3330u128), (EPOCH_LENGTH, 0)),
            funds: Coin {
                denom: "juno".to_string(),
                amount: 3330u128,
            },
        }
    );
    assert_eq!(
        res[2],
        DistributeMsg::FundDistribution {
            contract: "juno1333".to_string(),
            curve: Curve::saturating_linear((0, 2500u128), (EPOCH_LENGTH, 0)),
            funds: Coin {
                denom: "juno".to_string(),
                amount: 2500u128,
            },
        }
    );
}

#[test]
fn update_rewards() {
    let amount = 2000u128;

    let msg = InstantiateMsg {
        factory: "factory".to_string(),
        owner: "owner".to_string(),
        rewards_asset: Asset {
            info: AssetInfo::Native("juno".to_string()),
            amount: 1000u128,
        },
        epoch_length: EPOCH_LENGTH,
    };
    let mut config = instantiate(msg);

    // If not factory, update fails
    let err = config.update_rewards("user", amount).unwrap_err();
    assert_eq!(ContractError::Unauthorized {}, err);

    config.update_rewards("factory", amount).unwrap_err();
    assert_eq!(ContractError::Unauthorized {}, err);

    config.update_rewards("owner", amount).unwrap();

    // check if the config is stored
    assert_eq!(
        config.rewards_asset.info,
        AssetInfoValidated::Native("juno".to_string())
    );
    assert_eq!(config.rewards_asset.amount, 2000);
}

#[test]
fn sample_skips_options_without_a_share() {
    let config = instantiate(InstantiateMsg {
        factory: "factory".to_string(),
        owner: "owner".to_string(),
        rewards_asset: Asset {
            info: AssetInfo::Token("reward".to_string()),
            amount: 999,
        },
        epoch_length: 10,
    });
    let res = config
        .sample_gauge_msgs(vec![
            ("a".to_string(), Decimal::zero()),
            ("b".to_string(), Decimal::permille(1)),
            ("c".to_string(), Decimal::percent(50)),
        ])
        .unwrap();
    // 999 / 1000 rounds down to nothing; 999 / 2 rounds down to 499
    assert_eq!(
        res,
        vec![DistributeMsg::Send {
            token: "reward".to_string(),
            contract: "c".to_string(),
            amount: 499,
            curve: Curve::saturating_linear((0, 499), (10, 0)),
        }]
    );
}

#[test]
fn sample_reports_a_share_that_does_not_fit() {
    let config = instantiate(InstantiateMsg {
        factory: "factory".to_string(),
        owner: "owner".to_string(),
        rewards_asset: Asset {
            info: AssetInfo::Native("juno".to_string()),
            amount: u128::MAX,
        },
        epoch_length: 10,
    });
    assert_eq!(
        config.sample_gauge_msgs(vec![("a".to_string(), Decimal::percent(101))]),
        Err(CurveError::Overflow)
    );
    assert!(config
        .sample_gauge_msgs(vec![("a".to_string(), Decimal::one())])
        .is_ok());
}

#[test]
fn distribute_msg_of_nothing_is_none() {
    let asset = AssetInfoValidated::Native("juno".to_string()).with_balance(0);
    assert_eq!(
        create_distribute_msgs(asset, "pool".to_string(), ScalableCurve::linear((0, 100), (5, 0))),
        Ok(None)
    );
}

#[test]
fn scale_agrees_with_wynd_utils() {
    let amounts = [0u128, 1, 7, 444, 1100, 8000, 1_000_000_007];
    for amount in amounts {
        // constant
        let ours = ScalableCurve::Constant {
            ratio: Decimal::percent(50),
        }
        .scale(amount)
        .unwrap();
        let theirs = wynd_utils::ScalableCurve::Constant {
            ratio: cosmwasm_std::Decimal::percent(50),
        }
        .scale(cosmwasm_std::Uint128::new(amount));
        assert_eq!(theirs, wynd_utils::Curve::constant(amount / 2));
        assert_eq!(ours, Curve::constant(amount / 2));

        // linear
        let ours = ScalableCurve::ScalableLinear(ScalableLinear {
            min_x: 10000,
            min_y: Decimal::percent(80),
            max_x: 20000,
            max_y: Decimal::percent(20),
        })
        .scale(amount)
        .unwrap();
        let theirs = wynd_utils::ScalableCurve::ScalableLinear(wynd_utils::ScalableLinear {
            min_x: 10000,
            min_y: cosmwasm_std::Decimal::percent(80),
            max_x: 20000,
            max_y: cosmwasm_std::Decimal::percent(20),
        })
        .scale(cosmwasm_std::Uint128::new(amount));
        match (ours, theirs) {
            (Curve::SaturatingLinear(a), wynd_utils::Curve::SaturatingLinear(b)) => {
                assert_eq!(
                    (a.min_x, a.min_y, a.max_x, a.max_y),
                    (b.min_x, b.min_y.u128(), b.max_x, b.max_y.u128())
                );
            }
            other => panic!("unexpected shapes: {:?}", other),
        }

        // piecewise
        let shares = [(10000u64, 100u64), (20000, 70), (25000, 0)];
        let ours = ScalableCurve::ScalablePiecewise(ScalablePiecewise {
            steps: shares.iter().map(|(x, p)| (*x, Decimal::percent(*p))).collect(),
        })
        .scale(amount)
        .unwrap();
        let theirs = wynd_utils::ScalableCurve::ScalablePiecewise(wynd_utils::ScalablePiecewise {
            steps: shares
                .iter()
                .map(|(x, p)| (*x, cosmwasm_std::Decimal::percent(*p)))
                .collect(),
        })
        .scale(cosmwasm_std::Uint128::new(amount));
        match (ours, theirs) {
            (Curve::PiecewiseLinear(a), wynd_utils::Curve::PiecewiseLinear(b)) => {
                let b: Vec<(u64, u128)> = b.steps.iter().map(|(x, y)| (*x, y.u128())).collect();
                assert_eq!(a.steps, b);
            }
            other => panic!("unexpected shapes: {:?}", other),
        }
    }
}
