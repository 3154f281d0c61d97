//! Adding two curves: the schedule that locks at every point of either curve
//! what the two lock together.

use vstd::prelude::*;
use crate::curve::{
    lemma_locked_nonnegative,
    line_product,
    piece_of,
    Curve,
    CurveError,
    CurveModel,
    PiecewiseLinear,
    SaturatingLinear,
};

verus! {

/// The points through which a curve runs: none for a constant.
pub open spec fn points(curve: CurveModel) -> Seq<(u64, u128)> {
    match curve {
        CurveModel::Constant { .. } => Seq::empty(),
        CurveModel::SaturatingLinear(s) => seq![(s.min_x, s.min_y), (s.max_x, s.max_y)],
        CurveModel::PiecewiseLinear { steps } => steps,
    }
}

/// `x` is the time of one of the points.
pub open spec fn is_time(points: Seq<(u64, u128)>, x: u64) -> bool {
    exists|i: int| 0 <= i < points.len() && (#[trigger] points[i]).0 == x
}

/// The times of the points rise strictly.
pub open spec fn rising_times(points: Seq<(u64, u128)>) -> bool {
    forall|i: int, j: int| 0 <= i < j < points.len() ==> points[i].0 < points[j].0
}

/// What two curves lock together at `x`; an overflow where one of the two
/// cannot be evaluated, or the sum does not fit into 128 bits.
pub open spec fn sum_at(a: CurveModel, b: CurveModel, x: u64) -> Result<u128, CurveError> {
    match (a.value(x), b.value(x)) {
        (Ok(u), Ok(v)) => if u + v > u128::MAX {
            Err(CurveError::Overflow)
        } else {
            Ok((u + v) as u128)
        },
        _ => Err(CurveError::Overflow),
    }
}

/// `steps` is the sum of the curves `a` and `b`: it has a point at every
/// time at which one of the two has one, and at no other; its times rise;
/// and at each of its points it locks what the two lock together.
pub open spec fn merges(steps: Seq<(u64, u128)>, a: CurveModel, b: CurveModel) -> bool {
    &&& rising_times(steps)
    &&& forall|x: u64|
        is_time(steps, x) <==> is_time(points(a), x) || is_time(points(b), x)
    &&& forall|k: int| 0 <= k < steps.len() ==> sum_at(a, b, (#[trigger] steps[k]).0) == Ok::<u128, CurveError>(steps[k].1)
}

/// At a point of one of the two curves, what they lock together cannot be
/// computed.
pub open spec fn merge_overflows(a: CurveModel, b: CurveModel) -> bool {
    exists|x: u64|
        (is_time(points(a), x) || is_time(points(b), x)) && (#[trigger] sum_at(a, b, x)) is Err
}

/// A curve with every amount raised by `y`.
pub open spec fn raised(curve: CurveModel, y: u128) -> CurveModel {
    match curve {
        CurveModel::Constant { y: y0 } => CurveModel::Constant { y: (y0 + y) as u128 },
        CurveModel::SaturatingLinear(s) => CurveModel::SaturatingLinear(
            SaturatingLinear {
                min_x: s.min_x,
                min_y: (s.min_y + y) as u128,
                max_x: s.max_x,
                max_y: (s.max_y + y) as u128,
            },
        ),
        CurveModel::PiecewiseLinear { steps } => CurveModel::PiecewiseLinear {
            steps: Seq::new(steps.len(), |i: int| (steps[i].0, (steps[i].1 + y) as u128)),
        },
    }
}

/// Some amount of the curve, raised by `y`, does not fit into 128 bits.
pub open spec fn raise_overflows(curve: CurveModel, y: u128) -> bool {
    match curve {
        CurveModel::Constant { y: y0 } => y0 + y > u128::MAX,
        CurveModel::SaturatingLinear(s) => s.min_y + y > u128::MAX || s.max_y + y > u128::MAX,
        CurveModel::PiecewiseLinear { steps } => exists|i: int|
            0 <= i < steps.len() && (#[trigger] steps[i]).1 + y > u128::MAX,
    }
}

/// `r` is the outcome of adding the curves `a` and `b`. A constant raises
/// the other curve by its amount. Two curves with points add up to a
/// piecewise curve through the points of both. The sum is an overflow
/// exactly when an amount of it cannot be computed in 128 bits.
pub open spec fn combination(a: CurveModel, b: CurveModel, r: Result<CurveModel, CurveError>)
    -> bool {
    match (a, b) {
        (CurveModel::Constant { y }, _) => r == (if raise_overflows(b, y) {
            Err::<CurveModel, CurveError>(CurveError::Overflow)
        } else {
            Ok(raised(b, y))
        }),
        (_, CurveModel::Constant { y }) => r == (if raise_overflows(a, y) {
            Err::<CurveModel, CurveError>(CurveError::Overflow)
        } else {
            Ok(raised(a, y))
        }),
        _ => {
            &&& r is Err <==> merge_overflows(a, b)
            &&& r is Err ==> r == Err::<CurveModel, CurveError>(CurveError::Overflow)
            &&& r matches Ok(c) ==> c matches CurveModel::PiecewiseLinear { steps } && merges(
                steps,
                a,
                b,
            )
        },
    }
}

/// A time of some points is a time of the points with one more.
pub proof fn lemma_is_time_push(points: Seq<(u64, u128)>, point: (u64, u128), x: u64)
    ensures
        is_time(points, x) ==> is_time(points.push(point), x),
        is_time(points.push(point), point.0),
        is_time(points.push(point), x) ==> is_time(points, x) || x == point.0,
{
    let longer = points.push(point);
    if is_time(points, x) {
        let i = choose|i: int| 0 <= i < points.len() && (#[trigger] points[i]).0 == x;
        assert(longer[i].0 == x);
    }
    assert(longer[points.len() as int].0 == point.0);
    if is_time(longer, x) {
        let i = choose|i: int| 0 <= i < longer.len() && (#[trigger] longer[i]).0 == x;
        if i < points.len() {
            assert(points[i].0 == x);
        }
    }
}

/// A copy of a curve's points.
fn points_of(curve: &Curve) -> (r: Vec<(u64, u128)>)
    ensures
        r@ == points(curve@),
{
    let mut out: Vec<(u64, u128)> = Vec::new();
    match curve {
        Curve::Constant { .. } => {},
        Curve::SaturatingLinear(s) => {
            out.push((s.min_x, s.min_y));
            out.push((s.max_x, s.max_y));
            assert(out@ =~= points(curve@));
        },
        Curve::PiecewiseLinear(p) => {
            let n: usize = p.steps.len();
            let mut i: usize = 0;
            while i < n
                invariant
                    n == p.steps@.len(),
                    0 <= i <= n,
                    out@ == p.steps@.take(i as int),
                decreases n - i,
            {
                out.push(p.steps[i]);
                assert(out@ =~= p.steps@.take(i + 1));
                i = i + 1;
            }
            assert(p.steps@.take(n as int) == p.steps@);
        },
    }
    out
}

/// The curve with every amount raised by `y`; an overflow exactly when an
/// amount would not fit into 128 bits.
fn raise(curve: &Curve, y: u128) -> (r: Result<Curve, CurveError>)
    ensures
        crate::curve::outcome_view(r) == (if raise_overflows(curve@, y) {
            Err::<CurveModel, CurveError>(CurveError::Overflow)
        } else {
            Ok(raised(curve@, y))
        }),
{
    match curve {
        Curve::Constant { y: y0 } => match y0.checked_add(y) {
            Some(v) => Ok(Curve::Constant { y: v }),
            None => Err(CurveError::Overflow),
        },
        Curve::SaturatingLinear(s) => {
            let min_y: u128 = match s.min_y.checked_add(y) {
                Some(v) => v,
                None => {
                    return Err(CurveError::Overflow);
                },
            };
            let max_y: u128 = match s.max_y.checked_add(y) {
                Some(v) => v,
                None => {
                    return Err(CurveError::Overflow);
                },
            };
            Ok(
                Curve::SaturatingLinear(
                    SaturatingLinear { min_x: s.min_x, min_y, max_x: s.max_x, max_y },
                ),
            )
        },
        Curve::PiecewiseLinear(p) => {
            let n: usize = p.steps.len();
            let mut steps: Vec<(u64, u128)> = Vec::new();
            let mut i: usize = 0;
            let ghost target = raised(curve@, y)->steps;
            while i < n
                invariant
                    n == p.steps@.len(),
                    0 <= i <= n,
                    curve@ == (CurveModel::PiecewiseLinear { steps: p.steps@ }),
                    target == raised(curve@, y)->steps,
                    steps@ == target.take(i as int),
                    forall|k: int| 0 <= k < i ==> (#[trigger] p.steps@[k]).1 + y <= u128::MAX,
                decreases n - i,
            {
                let step: (u64, u128) = p.steps[i];
                match step.1.checked_add(y) {
                    Some(v) => {
                        steps.push((step.0, v));
                    },
                    None => {
                        assert(p.steps@[i as int].1 + y > u128::MAX);
                        return Err(CurveError::Overflow);
                    },
                }
                assert(steps@ =~= target.take(i + 1));
                i = i + 1;
            }
            assert(target.take(n as int) == target);
            Ok(Curve::PiecewiseLinear(PiecewiseLinear { steps }))
        },
    }
}

/// The points of the sum of two curves that both have points.
fn merge(a: &Curve, b: &Curve) -> (r: Result<Vec<(u64, u128)>, CurveError>)
    requires
        a@.wf(),
        b@.wf(),
        rising_times(points(a@)),
        rising_times(points(b@)),
    ensures
        r is Err <==> merge_overflows(a@, b@),
        r matches Err(e) ==> e == CurveError::Overflow,
        r matches Ok(steps) ==> merges(steps@, a@, b@),
{
    let pa: Vec<(u64, u128)> = points_of(a);
    let pb: Vec<(u64, u128)> = points_of(b);
    let na: usize = pa.len();
    let nb: usize = pb.len();
    let mut out: Vec<(u64, u128)> = Vec::new();
    let mut i: usize = 0;
    let mut j: usize = 0;
    while i < na || j < nb
        invariant
            a@.wf(),
            b@.wf(),
            pa@ == points(a@),
            pb@ == points(b@),
            rising_times(pa@),
            rising_times(pb@),
            na == pa@.len(),
            nb == pb@.len(),
            0 <= i <= na,
            0 <= j <= nb,
            rising_times(out@),
            forall|k: int|
                0 <= k < out@.len() ==> (i < na ==> (#[trigger] out@[k]).0 < pa@[i as int].0) && (
                j < nb ==> out@[k].0 < pb@[j as int].0),
            forall|k: int| 0 <= k < i ==> is_time(out@, (#[trigger] pa@[k]).0),
            forall|k: int| 0 <= k < j ==> is_time(out@, (#[trigger] pb@[k]).0),
            forall|k: int|
                0 <= k < out@.len() ==> is_time(pa@, (#[trigger] out@[k]).0) || is_time(
                    pb@,
                    out@[k].0,
                ),
            forall|k: int|
                0 <= k < out@.len() ==> sum_at(a@, b@, (#[trigger] out@[k]).0) == Ok::<
                    u128,
                    CurveError,
                >(out@[k].1),
        decreases (na - i) + (nb - j),
    {
        let from_a: bool = i < na && (j >= nb || pa[i].0 <= pb[j].0);
        let x: u64 = if from_a {
            pa[i].0
        } else {
            pb[j].0
        };
        proof {
            if from_a {
                assert(pa@[i as int].0 == x);
                assert(is_time(pa@, x));
            } else {
                assert(pb@[j as int].0 == x);
                assert(is_time(pb@, x));
            }
        }
        let ya: u128 = match a.value(x) {
            Ok(v) => v,
            Err(_) => {
                assert(sum_at(a@, b@, x) is Err);
                return Err(CurveError::Overflow);
            },
        };
        let yb: u128 = match b.value(x) {
            Ok(v) => v,
            Err(_) => {
                assert(sum_at(a@, b@, x) is Err);
                return Err(CurveError::Overflow);
            },
        };
        let y: u128 = match ya.checked_add(yb) {
            Some(v) => v,
            None => {
                assert(sum_at(a@, b@, x) is Err);
                return Err(CurveError::Overflow);
            },
        };
        let ghost before = out@;
        out.push((x, y));
        proof {
            assert forall|k: int| 0 <= k < i implies is_time(out@, (#[trigger] pa@[k]).0) by {
                lemma_is_time_push(before, (x, y), pa@[k].0);
            }
            assert forall|k: int| 0 <= k < j implies is_time(out@, (#[trigger] pb@[k]).0) by {
                lemma_is_time_push(before, (x, y), pb@[k].0);
            }
            lemma_is_time_push(before, (x, y), x);
        }
        let i0: usize = i;
        let j0: usize = j;
        if i < na && pa[i].0 == x {
            i = i + 1;
        }
        if j < nb && pb[j].0 == x {
            j = j + 1;
        }
        proof {
            assert forall|k: int| 0 <= k < out@.len() implies (i < na ==> (#[trigger] out@[k]).0
                < pa@[i as int].0) && (j < nb ==> out@[k].0 < pb@[j as int].0) by {
                if i < na && i0 < i {
                    assert(pa@[i0 as int].0 < pa@[i as int].0);
                }
                if j < nb && j0 < j {
                    assert(pb@[j0 as int].0 < pb@[j as int].0);
                }
                if k < before.len() {
                    assert(out@[k] == before[k]);
                }
            }
        }
    }
    proof {
        assert forall|x: u64| is_time(out@, x) <==> is_time(points(a@), x) || is_time(
            points(b@),
            x,
        ) by {
            if is_time(out@, x) {
                let k = choose|k: int| 0 <= k < out@.len() && (#[trigger] out@[k]).0 == x;
                assert(is_time(pa@, out@[k].0) || is_time(pb@, out@[k].0));
            }
            if is_time(pa@, x) {
                let k = choose|k: int| 0 <= k < pa@.len() && (#[trigger] pa@[k]).0 == x;
                assert(is_time(out@, pa@[k].0));
            }
            if is_time(pb@, x) {
                let k = choose|k: int| 0 <= k < pb@.len() && (#[trigger] pb@[k]).0 == x;
                assert(is_time(out@, pb@[k].0));
            }
        }
        if merge_overflows(a@, b@) {
            let x = choose|x: u64|
                (is_time(points(a@), x) || is_time(points(b@), x)) && (#[trigger] sum_at(
                    a@,
                    b@,
                    x,
                )) is Err;
            assert(is_time(out@, x));
            let k = choose|k: int| 0 <= k < out@.len() && (#[trigger] out@[k]).0 == x;
            assert(sum_at(a@, b@, out@[k].0) is Ok);
        }
    }
    Ok(out)
}

impl Curve {
    /// The sum of this curve and another: the curve that locks, at every
    /// point of either, what the two lock together. A constant raises the
    /// other curve by its amount.
    ///
    /// Fails with an overflow exactly when an amount of the sum cannot be
    /// computed in 128 bits.
    pub fn combine(&self, other: &Curve) -> (r: Result<Curve, CurveError>)
        requires
            self@.wf(),
            other@.wf(),
        ensures
            combination(self@, other@, crate::curve::outcome_view(r)),
    {
        match self {
            Curve::Constant { y } => {
                return raise(other, *y);
            },
            _ => {},
        }
        match other {
            Curve::Constant { y } => {
                return raise(self, *y);
            },
            _ => {},
        }
        proof {
            lemma_points_rise(self@);
            lemma_points_rise(other@);
        }
        match merge(self, other) {
            Ok(steps) => Ok(Curve::PiecewiseLinear(PiecewiseLinear { steps })),
            Err(e) => Err(e),
        }
    }
}

/// The times of the points of a well-formed curve rise strictly.
pub proof fn lemma_points_rise(curve: CurveModel)
    requires
        curve.wf(),
    ensures
        rising_times(points(curve)),
{
}


/// Funding is additive. The sum of two curves locks, at the time of every
/// point of either, exactly what the two lock together; and where one of
/// the two is a constant, it does so at every time.
pub proof fn law_combination_adds(a: CurveModel, b: CurveModel, sum: CurveModel, x: u64)
    requires
        a.wf(),
        b.wf(),
        combination(a, b, Ok(sum)),
        a is Constant || b is Constant || is_time(points(a), x) || is_time(points(b), x),
    ensures
        sum.locked(x as int) == a.locked(x as int) + b.locked(x as int),
{
    match (a, b) {
        (CurveModel::Constant { y }, _) => {
            lemma_raised_adds(b, y, x as int);
        },
        (_, CurveModel::Constant { y }) => {
            lemma_raised_adds(a, y, x as int);
        },
        _ => {
            let steps = sum->steps;
            assert(is_time(steps, x));
            let k = choose|k: int| 0 <= k < steps.len() && (#[trigger] steps[k]).0 == x;
            assert(sum_at(a, b, steps[k].0) == Ok::<u128, CurveError>(steps[k].1));
            lemma_locked_nonnegative(a, x as int);
            lemma_locked_nonnegative(b, x as int);
            lemma_rising_steps_locked(steps, k);
        },
    }
}

/// Along rising times, a curve locks at the time of a point the amount of
/// the point.
proof fn lemma_rising_steps_locked(steps: Seq<(u64, u128)>, k: int)
    requires
        rising_times(steps),
        0 <= k < steps.len(),
    ensures
        crate::curve::steps_locked(steps, steps[k].0 as int) == steps[k].1,
{
    let n = steps.len() as int;
    let x = steps[k].0 as int;
    if k == 0 {
    } else if k == n - 1 {
        assert(steps[0].0 < steps[k].0);
    } else {
        assert(steps[0].0 < steps[k].0);
        assert(steps[k].0 < steps[n - 1].0);
        assert(steps[k].0 < steps[k + 1].0);
        assert(crate::curve::in_piece(steps, k, x));
        let j = piece_of(steps, x);
        assert(crate::curve::in_piece(steps, j, x));
        if j < k {
            if j + 1 < k {
                assert(steps[j + 1].0 < steps[k].0);
            }
        }
        if k < j {
            assert(steps[k].0 < steps[j].0);
        }
        assert(line_product(x, steps[k].1 as int, steps[k + 1].1 as int, x) == 0)
            by (nonlinear_arith);
        assert(0int / (steps[k + 1].0 - steps[k].0) == 0) by (nonlinear_arith)
            requires
                steps[k + 1].0 - steps[k].0 > 0,
        ;
    }
}

/// A curve raised by an amount locks that amount more at every time.
proof fn lemma_raised_adds(curve: CurveModel, y: u128, x: int)
    requires
        curve.wf(),
        !raise_overflows(curve, y),
    ensures
        raised(curve, y).locked(x) == curve.locked(x) + y,
{
    match curve {
        CurveModel::Constant { .. } => {},
        CurveModel::SaturatingLinear(s) => {},
        CurveModel::PiecewiseLinear { steps } => {
            let up = raised(curve, y)->steps;
            let n = steps.len() as int;
            assert forall|i: int| 0 <= i < n implies (#[trigger] up[i]).0 == steps[i].0 && up[i].1
                == steps[i].1 + y by {
                assert(steps[i].1 + y <= u128::MAX);
            }
            if steps[0].0 < x < steps[n - 1].0 {
                crate::curve::lemma_piece_exists(steps, x);
                let i = piece_of(steps, x);
                assert(crate::curve::in_piece(up, i, x));
                assert forall|a: int, b: int| 0 <= a < b < up.len() implies up[a].0 < up[b].0 by {
                    assert(steps[a].0 < steps[b].0);
                }
                assert(up[0].0 > 0);
                crate::curve::lemma_piece_unique(up, i, x);
            }
        },
    }
}


/// Points with rising times are told by their times: two such sequences
/// with the same times, and with the same amount wherever their times
/// agree, are one sequence.
proof fn lemma_rising_points_unique(s1: Seq<(u64, u128)>, s2: Seq<(u64, u128)>)
    requires
        rising_times(s1),
        rising_times(s2),
        forall|x: u64| is_time(s1, x) <==> is_time(s2, x),
        forall|i: int, j: int|
            0 <= i < s1.len() && 0 <= j < s2.len() && s1[i].0 == s2[j].0 ==> s1[i].1 == s2[j].1,
    ensures
        s1 == s2,
    decreases s1.len(),
{
    if s1.len() == 0 {
        if s2.len() > 0 {
            assert(is_time(s2, s2[0].0));
            let i = choose|i: int| 0 <= i < s1.len() && (#[trigger] s1[i]).0 == s2[0].0;
        }
        assert(s1 =~= s2);
    } else {
        let n1 = s1.len() as int;
        assert(is_time(s1, s1[n1 - 1].0));
        let j = choose|j: int| 0 <= j < s2.len() && (#[trigger] s2[j]).0 == s1[n1 - 1].0;
        let n2 = s2.len() as int;
        assert(is_time(s2, s2[n2 - 1].0));
        let i = choose|i: int| 0 <= i < s1.len() && (#[trigger] s1[i]).0 == s2[n2 - 1].0;
        // each last time is among the other's times, so neither is the later
        if i < n1 - 1 {
            assert(s1[i].0 < s1[n1 - 1].0);
        }
        if j < n2 - 1 {
            assert(s2[j].0 < s2[n2 - 1].0);
        }
        assert(s1[n1 - 1].0 == s2[n2 - 1].0);
        let f1 = s1.drop_last();
        let f2 = s2.drop_last();
        assert forall|x: u64| is_time(f1, x) <==> is_time(f2, x) by {
            if is_time(f1, x) {
                let a = choose|a: int| 0 <= a < f1.len() && (#[trigger] f1[a]).0 == x;
                assert(s1[a].0 == x);
                assert(s1[a].0 < s1[n1 - 1].0);
                assert(is_time(s1, x));
                let b = choose|b: int| 0 <= b < s2.len() && (#[trigger] s2[b]).0 == x;
                assert(b < n2 - 1);
                assert(f2[b].0 == x);
            }
            if is_time(f2, x) {
                let b = choose|b: int| 0 <= b < f2.len() && (#[trigger] f2[b]).0 == x;
                assert(s2[b].0 == x);
                assert(s2[b].0 < s2[n2 - 1].0);
                assert(is_time(s2, x));
                let a = choose|a: int| 0 <= a < s1.len() && (#[trigger] s1[a]).0 == x;
                assert(a < n1 - 1);
                assert(f1[a].0 == x);
            }
        }
        assert forall|a: int, b: int|
            0 <= a < f1.len() && 0 <= b < f2.len() && f1[a].0 == f2[b].0 implies f1[a].1
            == f2[b].1 by {
            assert(s1[a].0 == s2[b].0);
        }
        assert forall|a: int, b: int| 0 <= a < b < f1.len() implies f1[a].0 < f1[b].0 by {
            assert(s1[a].0 < s1[b].0);
        }
        assert forall|a: int, b: int| 0 <= a < b < f2.len() implies f2[a].0 < f2[b].0 by {
            assert(s2[a].0 < s2[b].0);
        }
        lemma_rising_points_unique(f1, f2);
        assert(s1[n1 - 1] == s2[n2 - 1]);
        assert(s1 =~= f1.push(s1[n1 - 1]));
        assert(s2 =~= f2.push(s2[n2 - 1]));
    }
}

/// Two curves have one sum: whatever meets the description of their sum is
/// the same curve.
pub proof fn law_combination_is_unique(
    a: CurveModel,
    b: CurveModel,
    first: Result<CurveModel, CurveError>,
    second: Result<CurveModel, CurveError>,
)
    requires
        combination(a, b, first),
        combination(a, b, second),
    ensures
        first == second,
{
    match (a, b) {
        (CurveModel::Constant { .. }, _) => {},
        (_, CurveModel::Constant { .. }) => {},
        _ => {
            if first is Ok {
                let s1 = first->Ok_0->steps;
                let s2 = second->Ok_0->steps;
                assert forall|i: int, j: int|
                    0 <= i < s1.len() && 0 <= j < s2.len() && s1[i].0 == s2[j].0 implies s1[i].1
                    == s2[j].1 by {
                    assert(sum_at(a, b, s1[i].0) == Ok::<u128, CurveError>(s1[i].1));
                    assert(sum_at(a, b, s2[j].0) == Ok::<u128, CurveError>(s2[j].1));
                }
                assert forall|x: u64| is_time(s1, x) <==> is_time(s2, x) by {}
                lemma_rising_points_unique(s1, s2);
            }
        },
    }
}

} // verus!
