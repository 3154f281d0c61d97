//! Curves in shares of an amount, which become release curves once the
//! amount is known.

use vstd::prelude::*;
use crate::curve::{Curve, CurveError, CurveModel, PiecewiseLinear, SaturatingLinear};
use crate::math::{mul_floor, Decimal, DECIMAL_FRACTIONAL};

verus! {

/// A line between two points, in shares of an amount.
#[derive(Clone, Copy, Debug, PartialEq, Eq, Structural)]
pub struct ScalableLinear {
    pub min_x: u64,
    pub min_y: Decimal,
    pub max_x: u64,
    pub max_y: Decimal,
}

/// Lines through several points, in shares of an amount.
#[derive(Clone, Debug, PartialEq, Eq)]
pub struct ScalablePiecewise {
    pub steps: Vec<(u64, Decimal)>,
}

/// A curve in shares of an amount.
#[derive(Clone, Debug, PartialEq, Eq)]
pub enum ScalableCurve {
    Constant { ratio: Decimal },
    ScalableLinear(ScalableLinear),
    ScalablePiecewise(ScalablePiecewise),
}

/// What a [`ScalableCurve`] is.
pub ghost enum ScalableModel {
    Constant { ratio: Decimal },
    ScalableLinear(ScalableLinear),
    ScalablePiecewise { steps: Seq<(u64, Decimal)> },
}

impl View for ScalableCurve {
    type V = ScalableModel;

    open spec fn view(&self) -> ScalableModel {
        match self {
            ScalableCurve::Constant { ratio } => ScalableModel::Constant { ratio: *ratio },
            ScalableCurve::ScalableLinear(s) => ScalableModel::ScalableLinear(*s),
            ScalableCurve::ScalablePiecewise(p) => ScalableModel::ScalablePiecewise {
                steps: p.steps@,
            },
        }
    }
}

/// The share `ratio` of `amount`, rounded down.
pub open spec fn share(amount: u128, ratio: Decimal) -> int {
    amount * ratio.atomics / (DECIMAL_FRACTIONAL as int)
}

impl ScalableModel {
    /// Some share of `amount` along the curve does not fit into 128 bits.
    pub open spec fn scale_overflows(self, amount: u128) -> bool {
        match self {
            ScalableModel::Constant { ratio } => share(amount, ratio) > u128::MAX,
            ScalableModel::ScalableLinear(s) => share(amount, s.min_y) > u128::MAX || share(
                amount,
                s.max_y,
            ) > u128::MAX,
            ScalableModel::ScalablePiecewise { steps } => exists|i: int|
                0 <= i < steps.len() && share(amount, (#[trigger] steps[i]).1) > u128::MAX,
        }
    }

    /// The curve with every share turned into that share of `amount`,
    /// rounded down.
    pub open spec fn scaled(self, amount: u128) -> CurveModel {
        match self {
            ScalableModel::Constant { ratio } => CurveModel::Constant {
                y: share(amount, ratio) as u128,
            },
            ScalableModel::ScalableLinear(s) => CurveModel::SaturatingLinear(
                SaturatingLinear {
                    min_x: s.min_x,
                    min_y: share(amount, s.min_y) as u128,
                    max_x: s.max_x,
                    max_y: share(amount, s.max_y) as u128,
                },
            ),
            ScalableModel::ScalablePiecewise { steps } => CurveModel::PiecewiseLinear {
                steps: Seq::new(
                    steps.len(),
                    |i: int| (steps[i].0, share(amount, steps[i].1) as u128),
                ),
            },
        }
    }
}

/// The share `ratio` of `amount`; `None` exactly when it does not fit.
fn share_of(amount: u128, ratio: Decimal) -> (r: Option<u128>)
    ensures
        r is Some <==> share(amount, ratio) <= u128::MAX,
        r matches Some(v) ==> v == share(amount, ratio),
{
    proof {
        assert(amount * ratio.atomics >= 0) by (nonlinear_arith)
            requires
                amount >= 0,
                ratio.atomics >= 0,
        ;
    }
    mul_floor(amount, ratio)
}

impl ScalableCurve {
    /// The line from `min` to `max`, each a time and a share in hundredths.
    pub fn linear(min: (u64, u64), max: (u64, u64)) -> (r: ScalableCurve)
        ensures
            r@ == ScalableModel::ScalableLinear(
                ScalableLinear {
                    min_x: min.0,
                    min_y: Decimal { atomics: (min.1 * 10_000_000_000_000_000) as u128 },
                    max_x: max.0,
                    max_y: Decimal { atomics: (max.1 * 10_000_000_000_000_000) as u128 },
                },
            ),
    {
        ScalableCurve::ScalableLinear(
            ScalableLinear {
                min_x: min.0,
                min_y: Decimal::percent(min.1),
                max_x: max.0,
                max_y: Decimal::percent(max.1),
            },
        )
    }

    /// A copy of the curve.
    pub fn copy(&self) -> (r: ScalableCurve)
        ensures
            r@ == self@,
    {
        match self {
            ScalableCurve::Constant { ratio } => ScalableCurve::Constant { ratio: *ratio },
            ScalableCurve::ScalableLinear(s) => ScalableCurve::ScalableLinear(*s),
            ScalableCurve::ScalablePiecewise(p) => ScalableCurve::ScalablePiecewise(
                ScalablePiecewise { steps: crate::text::copy_list(&p.steps) },
            ),
        }
    }

    /// The release curve of `amount`: every share of the curve becomes that
    /// share of the amount, rounded down.
    ///
    /// Fails with an overflow exactly when a share of the amount does not
    /// fit into 128 bits.
    pub fn scale(self, amount: u128) -> (r: Result<Curve, CurveError>)
        ensures
            crate::curve::outcome_view(r) == (if self@.scale_overflows(amount) {
                Err::<CurveModel, CurveError>(CurveError::Overflow)
            } else {
                Ok(self@.scaled(amount))
            }),
    {
        self.scale_ref(amount)
    }

    /// The release curve of `amount`, from a curve that is kept.
    fn scale_ref(&self, amount: u128) -> (r: Result<Curve, CurveError>)
        ensures
            crate::curve::outcome_view(r) == (if self@.scale_overflows(amount) {
                Err::<CurveModel, CurveError>(CurveError::Overflow)
            } else {
                Ok(self@.scaled(amount))
            }),
    {
        let ghost me = self@;
        match self {
            ScalableCurve::Constant { ratio } => match share_of(amount, *ratio) {
                Some(y) => Ok(Curve::Constant { y }),
                None => Err(CurveError::Overflow),
            },
            ScalableCurve::ScalableLinear(s) => {
                let min_y: u128 = match share_of(amount, s.min_y) {
                    Some(v) => v,
                    None => {
                        return Err(CurveError::Overflow);
                    },
                };
                let max_y: u128 = match share_of(amount, s.max_y) {
                    Some(v) => v,
                    None => {
                        return Err(CurveError::Overflow);
                    },
                };
                Ok(
                    Curve::SaturatingLinear(
                        SaturatingLinear { min_x: s.min_x, min_y, max_x: s.max_x, max_y },
                    ),
                )
            },
            ScalableCurve::ScalablePiecewise(p) => {
                let n: usize = p.steps.len();
                let mut steps: Vec<(u64, u128)> = Vec::new();
                let mut i: usize = 0;
                let ghost model = ScalableModel::ScalablePiecewise { steps: p.steps@ };
                let ghost target = model.scaled(amount)->steps;
                while i < n
                    invariant
                        n == p.steps@.len(),
                        0 <= i <= n,
                        model == (ScalableModel::ScalablePiecewise { steps: p.steps@ }),
                        me == model,
                        self@ == me,
                        target == model.scaled(amount)->steps,
                        steps@ == target.take(i as int),
                        forall|k: int|
                            0 <= k < i ==> share(amount, (#[trigger] p.steps@[k]).1) <= u128::MAX,
                    decreases n - i,
                {
                    let step: (u64, Decimal) = p.steps[i];
                    match share_of(amount, step.1) {
                        Some(v) => {
                            steps.push((step.0, v));
                        },
                        None => {
                            assert(share(amount, p.steps@[i as int].1) > u128::MAX);
                            return Err(CurveError::Overflow);
                        },
                    }
                    assert(steps@ =~= target.take(i + 1));
                    i = i + 1;
                }
                assert(target.take(n as int) == target);
                Ok(Curve::PiecewiseLinear(PiecewiseLinear { steps }))
            },
        }
    }
}

} // verus!
