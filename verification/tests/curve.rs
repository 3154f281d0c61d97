use wynd_stake::curve::{Curve, CurveError, CurveExt, PiecewiseLinear, SaturatingLinear};

fn theirs(curve: &Curve) -> wynd_utils::Curve {
    match curve {
        Curve::Constant { y } => wynd_utils::Curve::constant(*y),
        Curve::SaturatingLinear(s) => {
            wynd_utils::Curve::saturating_linear((s.min_x, s.min_y), (s.max_x, s.max_y))
        }
        Curve::PiecewiseLinear(p) => wynd_utils::Curve::PiecewiseLinear(wynd_utils::PiecewiseLinear {
            steps: p
                .steps
                .iter()
                .map(|(x, y)| (*x, cosmwasm_std::Uint128::new(*y)))
                .collect(),
        }),
    }
}

fn their_error(e: wynd_utils::CurveError) -> CurveError {
    match e {
        wynd_utils::CurveError::NotMonotonic => CurveError::NotMonotonic,
        wynd_utils::CurveError::MonotonicIncreasing => CurveError::MonotonicIncreasing,
        wynd_utils::CurveError::MonotonicDecreasing => CurveError::MonotonicDecreasing,
        wynd_utils::CurveError::PointsOutOfOrder => CurveError::PointsOutOfOrder,
        wynd_utils::CurveError::MissingSteps => CurveError::MissingSteps,
    }
}

fn piecewise(steps: &[(u64, u128)]) -> Curve {
    Curve::PiecewiseLinear(PiecewiseLinear {
        steps: steps.to_vec(),
    })
}

fn samples() -> Vec<Curve> {
    vec![
        Curve::constant(524),
        Curve::saturating_linear((100, 0), (200, 50)),
        Curve::saturating_linear((1700, 500), (2000, 200)),
        Curve::saturating_linear((0, 400), (100, 0)),
        Curve::saturating_linear((7, 1_000_000_007), (1_000_003, 13)),
        piecewise(&[(5, 12345)]),
        piecewise(&[(100, 0), (200, 50)]),
        piecewise(&[(1700, 500), (2000, 200)]),
        piecewise(&[(100, 0), (200, 50), (300, 150)]),
        piecewise(&[(100, 5_000), (200, 1_000), (300, 0)]),
        piecewise(&[(1, 800), (50, 600), (100, 200), (150, 0)]),
        piecewise(&[(10, 7), (20, 7), (30, 3), (31, 3), (1000, 1)]),
        piecewise(&[(100, 400), (200, 500), (300, 100)]),
    ]
}

#[test]
fn value_agrees_with_wynd_utils() {
    for curve in samples() {
        assert_eq!(curve.validate(), Ok(()));
        let other = theirs(&curve);
        let mut times: Vec<u64> = (0..=320).collect();
        times.extend([1699, 1700, 1701, 1850, 1999, 2000, 2001, 500_003, 1_000_002, 1_000_003]);
        times.extend([1_000_004, u64::MAX]);
        for x in times {
            assert_eq!(curve.value(x), Ok(other.value(x).u128()), "{:?} at {}", curve, x);
        }
    }
}

#[test]
fn value_rounds_towards_the_earlier_point() {
    let rising = Curve::saturating_linear((100, 0), (200, 50));
    assert_eq!(rising.value(1), Ok(0));
    assert_eq!(rising.value(150), Ok(25));
    assert_eq!(rising.value(103), Ok(1));
    assert_eq!(rising.value(1_000_000), Ok(50));
    let falling = Curve::saturating_linear((1700, 500), (2000, 200));
    assert_eq!(falling.value(1702), Ok(498));
    assert_eq!(falling.value(1800), Ok(400));
    let steps = piecewise(&[(100, 5_000), (200, 1_000), (300, 0)]);
    assert_eq!(steps.value(99), Ok(5_000));
    assert_eq!(steps.value(100), Ok(5_000));
    assert_eq!(steps.value(150), Ok(3_000));
    assert_eq!(steps.value(200), Ok(1_000));
    assert_eq!(steps.value(201), Ok(990));
    assert_eq!(steps.value(300), Ok(0));
    assert_eq!(steps.value(301), Ok(0));
}

#[test]
fn value_reports_a_product_that_does_not_fit() {
    let steep = Curve::saturating_linear((0, u128::MAX), (1000, 0));
    assert_eq!(steep.value(0), Ok(u128::MAX));
    assert_eq!(steep.value(1), Ok(u128::MAX - u128::MAX / 1000));
    assert_eq!(steep.value(2), Err(CurveError::Overflow));
    assert_eq!(steep.value(1000), Err(CurveError::Overflow));
    assert_eq!(steep.value(1001), Ok(0));
}

#[test]
fn validation_agrees_with_wynd_utils() {
    let mut curves = samples();
    curves.extend([
        Curve::saturating_linear((200, 0), (100, 50)),
        Curve::saturating_linear((100, 0), (100, 50)),
        piecewise(&[]),
        piecewise(&[(0, 5), (10, 4)]),
        piecewise(&[(10, 5), (10, 4)]),
        piecewise(&[(10, 5), (20, 4), (15, 3)]),
        piecewise(&[(10, 5), (20, 6), (30, 3)]),
        piecewise(&[(10, 5), (20, 5), (30, 5)]),
        piecewise(&[(10, 5), (20, 5), (30, 6)]),
    ]);
    for curve in curves {
        let other = theirs(&curve);
        assert_eq!(curve.validate(), other.validate().map_err(their_error), "{:?}", curve);
        assert_eq!(
            curve.validate_monotonic_decreasing(),
            other.validate_monotonic_decreasing().map_err(their_error),
            "{:?}",
            curve
        );
    }
}

#[test]
fn each_validation_error_has_an_input() {
    assert_eq!(piecewise(&[]).validate(), Err(CurveError::MissingSteps));
    assert_eq!(
        piecewise(&[(3, 1), (3, 1)]).validate(),
        Err(CurveError::PointsOutOfOrder)
    );
    assert_eq!(
        Curve::saturating_linear((5, 1), (5, 0)).validate_monotonic_decreasing(),
        Err(CurveError::PointsOutOfOrder)
    );
    assert_eq!(
        Curve::saturating_linear((5, 1), (6, 2)).validate_monotonic_decreasing(),
        Err(CurveError::MonotonicIncreasing)
    );
    assert_eq!(
        piecewise(&[(1, 1), (2, 2), (3, 1)]).validate_monotonic_decreasing(),
        Err(CurveError::NotMonotonic)
    );
    assert_eq!(
        piecewise(&[(1, 1), (2, 2), (3, 2)]).validate_monotonic_decreasing(),
        Err(CurveError::MonotonicIncreasing)
    );
    assert_eq!(
        piecewise(&[(1, 3), (2, 2), (3, 2)]).validate_monotonic_decreasing(),
        Ok(())
    );
}

#[test]
fn range_agrees_with_wynd_utils() {
    for curve in samples() {
        assert_eq!(curve.range(), theirs(&curve).range(), "{:?}", curve);
    }
    assert_eq!(piecewise(&[(100, 400), (200, 500), (300, 100)]).range(), (100, 500));
}

#[test]
fn shift_moves_every_time() {
    assert_eq!(Curve::constant(7).shift(1000), Ok(Curve::constant(7)));
    assert_eq!(
        Curve::saturating_linear((0, 400), (100, 0)).shift(1000),
        Ok(Curve::saturating_linear((1000, 400), (1100, 0)))
    );
    assert_eq!(
        piecewise(&[(1, 3), (2, 2), (30, 1)]).shift(5),
        Ok(piecewise(&[(6, 3), (7, 2), (35, 1)]))
    );
    assert_eq!(
        SaturatingLinear { min_x: 1, min_y: 2, max_x: 3, max_y: 1 }.shift(u64::MAX - 2),
        Err(CurveError::Overflow)
    );
    assert_eq!(
        PiecewiseLinear { steps: vec![(1, 3), (u64::MAX, 2)] }.shift(1),
        Err(CurveError::Overflow)
    );
    // the shifted curve takes at a time what the curve took so much earlier
    let curve = piecewise(&[(100, 5_000), (200, 1_000), (300, 0)]);
    let shifted = piecewise(&[(100, 5_000), (200, 1_000), (300, 0)]).shift(77).unwrap();
    for x in 0..400u64 {
        assert_eq!(shifted.value(x + 77), curve.value(x));
    }
}

#[test]
fn end_is_the_last_time() {
    assert_eq!(Curve::constant(7).end(), None);
    assert_eq!(Curve::saturating_linear((0, 400), (100, 0)).end(), Some(100));
    assert_eq!(piecewise(&[(1, 3), (2, 2), (30, 1)]).end(), Some(30));
    assert_eq!(piecewise(&[]).end(), None);
    assert_eq!(PiecewiseLinear { steps: vec![(4, 1)] }.end(), Some(4));
    assert_eq!(SaturatingLinear { min_x: 1, min_y: 2, max_x: 3, max_y: 1 }.end(), Some(3));
}

#[test]
fn combine_adds_at_every_point() {
    // a constant raises the other curve
    assert_eq!(
        Curve::constant(5).combine(&Curve::constant(6)),
        Ok(Curve::constant(11))
    );
    assert_eq!(
        Curve::constant(0).combine(&Curve::saturating_linear((10, 400), (110, 0))),
        Ok(Curve::saturating_linear((10, 400), (110, 0)))
    );
    assert_eq!(
        Curve::saturating_linear((10, 400), (110, 0)).combine(&Curve::constant(3)),
        Ok(Curve::saturating_linear((10, 403), (110, 3)))
    );
    assert_eq!(
        piecewise(&[(1, 3), (2, 2)]).combine(&Curve::constant(3)),
        Ok(piecewise(&[(1, 6), (2, 5)]))
    );
    // two schedules, the second funded half way through the first
    let first = Curve::saturating_linear((1000, 400), (1100, 0));
    let second = Curve::saturating_linear((1050, 400), (1150, 0));
    let both = first.combine(&second).unwrap();
    assert_eq!(
        both,
        piecewise(&[(1000, 800), (1050, 600), (1100, 200), (1150, 0)])
    );
    assert_eq!(both.validate_monotonic_decreasing(), Ok(()));
    // and a third on top of the two
    let third = Curve::saturating_linear((1100, 400), (1200, 0));
    assert_eq!(
        both.combine(&third),
        Ok(piecewise(&[(1000, 1200), (1050, 1000), (1100, 600), (1150, 200), (1200, 0)]))
    );
    // shared points count once
    assert_eq!(
        piecewise(&[(1, 30), (5, 10)]).combine(&piecewise(&[(1, 7), (3, 5), (5, 1)])),
        Ok(piecewise(&[(1, 37), (3, 25), (5, 11)]))
    );
    assert_eq!(
        Curve::constant(u128::MAX).combine(&Curve::constant(1)),
        Err(CurveError::Overflow)
    );
    assert_eq!(
        piecewise(&[(1, u128::MAX), (5, 10)]).combine(&piecewise(&[(1, 7), (3, 5)])),
        Err(CurveError::Overflow)
    );
}

#[test]
fn a_release_schedule_never_rises() {
    for curve in samples() {
        if curve.validate_monotonic_decreasing().is_ok() {
            let mut last = curve.value(0).unwrap();
            for x in 1..2100u64 {
                let next = curve.value(x).unwrap();
                assert!(next <= last, "{:?} rises at {}", curve, x);
                last = next;
            }
        }
    }
}
