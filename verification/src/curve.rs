//! Release curves: how much of a funded amount is still locked at a time.
//!
//! A curve is one of three shapes: a constant, a line between two points that
//! saturates on both sides, or a chain of such lines through several points.
//! A reward schedule is a curve that never rises.

use vstd::prelude::*;

verus! {

/// Why a curve was rejected, or could not be evaluated.
#[derive(Clone, Copy, Debug, PartialEq, Eq, Structural)]
pub enum CurveError {
    /// The values both rise and fall.
    NotMonotonic,
    /// The values rise and never fall.
    MonotonicIncreasing,
    /// The values fall and never rise.
    MonotonicDecreasing,
    /// A point does not lie strictly after the one before it.
    PointsOutOfOrder,
    /// A piecewise curve without points.
    MissingSteps,
    /// A product or a sum does not fit into 128 bits, or a time into 64.
    Overflow,
}

/// `min_y` up to `min_x`, `max_y` from `max_x` on, a straight line between.
#[derive(Clone, Copy, Debug, PartialEq, Eq, Structural)]
pub struct SaturatingLinear {
    pub min_x: u64,
    pub min_y: u128,
    pub max_x: u64,
    pub max_y: u128,
}

/// Straight lines through `steps`, constant before the first and after the
/// last of them.
#[derive(Clone, Debug, PartialEq, Eq)]
pub struct PiecewiseLinear {
    pub steps: Vec<(u64, u128)>,
}

/// The amount still locked, as a function of time.
#[derive(Clone, Debug, PartialEq, Eq)]
pub enum Curve {
    Constant { y: u128 },
    SaturatingLinear(SaturatingLinear),
    PiecewiseLinear(PiecewiseLinear),
}

/// What a [`Curve`] is: the same three shapes, with the points of a piecewise
/// curve as a sequence.
pub ghost enum CurveModel {
    Constant { y: u128 },
    SaturatingLinear(SaturatingLinear),
    PiecewiseLinear { steps: Seq<(u64, u128)> },
}

impl View for Curve {
    type V = CurveModel;

    open spec fn view(&self) -> CurveModel {
        match self {
            Curve::Constant { y } => CurveModel::Constant { y: *y },
            Curve::SaturatingLinear(s) => CurveModel::SaturatingLinear(*s),
            Curve::PiecewiseLinear(p) => CurveModel::PiecewiseLinear { steps: p.steps@ },
        }
    }
}

/// The outcome of an operation that builds a curve, with the curve as its
/// model.
pub open spec fn outcome_view(r: Result<Curve, CurveError>) -> Result<CurveModel, CurveError> {
    match r {
        Ok(c) => Ok(c@),
        Err(e) => Err(e),
    }
}

/// The product that a line from `(x0, y0)` to `(x1, y1)` forms on its way to
/// the value at `x`: the height of the line times the distance from `x0`.
pub open spec fn line_product(x0: int, y0: int, y1: int, x: int) -> int {
    if y1 > y0 {
        (y1 - y0) * (x - x0)
    } else {
        (y0 - y1) * (x - x0)
    }
}

/// The value at `x` of the line from `(x0, y0)` to `(x1, y1)`, rounded towards
/// `y0`.
pub open spec fn line_value(x0: int, y0: int, x1: int, y1: int, x: int) -> int {
    if y1 > y0 {
        y0 + line_product(x0, y0, y1, x) / (x1 - x0)
    } else {
        y0 - line_product(x0, y0, y1, x) / (x1 - x0)
    }
}

/// A line's value lies between the values of its two ends.
pub proof fn lemma_line_value_bounds(x0: int, y0: int, x1: int, y1: int, x: int)
    requires
        x0 <= x <= x1,
        x0 < x1,
    ensures
        y1 > y0 ==> y0 <= line_value(x0, y0, x1, y1, x) <= y1,
        y1 <= y0 ==> y1 <= line_value(x0, y0, x1, y1, x) <= y0,
        0 <= line_product(x0, y0, y1, x),
{
    let d: int = if y1 > y0 { y1 - y0 } else { y0 - y1 };
    let w: int = x1 - x0;
    let t: int = x - x0;
    assert(0 <= d * t <= d * w) by (nonlinear_arith)
        requires
            0 <= d,
            0 <= t <= w,
    ;
    assert(0 <= (d * t) / w <= d) by (nonlinear_arith)
        requires
            0 <= d * t <= d * w,
            0 < w,
    ;
}

/// A line that falls, or stays level, never rises from one time to a later
/// one.
pub proof fn lemma_line_value_falls(x0: int, y0: int, x1: int, y1: int, a: int, b: int)
    requires
        x0 <= a <= b <= x1,
        x0 < x1,
        y1 <= y0,
    ensures
        line_value(x0, y0, x1, y1, a) >= line_value(x0, y0, x1, y1, b),
{
    let d: int = y0 - y1;
    let w: int = x1 - x0;
    let s: int = a - x0;
    let t: int = b - x0;
    assert(d * s <= d * t) by (nonlinear_arith)
        requires
            0 <= d,
            s <= t,
    ;
    assert((d * s) / w <= (d * t) / w) by (nonlinear_arith)
        requires
            d * s <= d * t,
            0 < w,
    ;
}

/// The value at `x` of the line from `(x0, y0)` to `(x1, y1)`.
///
/// Fails with [`CurveError::Overflow`] exactly when the line's product at `x`
/// does not fit into 128 bits.
pub fn interpolate(x0: u64, y0: u128, x1: u64, y1: u128, x: u64) -> (r: Result<u128, CurveError>)
    requires
        x0 <= x <= x1,
        x0 < x1,
    ensures
        r == line_result(x0 as int, y0 as int, x1 as int, y1 as int, x as int),
{
    proof {
        lemma_line_value_bounds(x0 as int, y0 as int, x1 as int, y1 as int, x as int);
    }
    let t: u128 = (x - x0) as u128;
    let w: u128 = (x1 - x0) as u128;
    if y1 > y0 {
        match (y1 - y0).checked_mul(t) {
            Some(p) => Ok(y0 + p / w),
            None => Err(CurveError::Overflow),
        }
    } else {
        match (y0 - y1).checked_mul(t) {
            Some(p) => Ok(y0 - p / w),
            None => Err(CurveError::Overflow),
        }
    }
}

/// What [`interpolate`] returns.
pub open spec fn line_result(x0: int, y0: int, x1: int, y1: int, x: int) -> Result<
    u128,
    CurveError,
> {
    if line_product(x0, y0, y1, x) > u128::MAX {
        Err(CurveError::Overflow)
    } else {
        Ok(line_value(x0, y0, x1, y1, x) as u128)
    }
}


impl SaturatingLinear {
    /// The two ends lie in order of time.
    pub open spec fn wf(&self) -> bool {
        self.min_x < self.max_x
    }

    /// The locked amount at `x`, as a mathematical integer.
    pub open spec fn locked(&self, x: int) -> int {
        if x < self.min_x {
            self.min_y as int
        } else if x > self.max_x {
            self.max_y as int
        } else {
            line_value(self.min_x as int, self.min_y as int, self.max_x as int, self.max_y as int, x)
        }
    }

    /// The product formed on the way to the value at `x`: zero where the
    /// curve is saturated.
    pub open spec fn product(&self, x: int) -> int {
        if x < self.min_x || x > self.max_x {
            0
        } else {
            line_product(self.min_x as int, self.min_y as int, self.max_y as int, x)
        }
    }

    /// The curve never rises.
    pub open spec fn falls(&self) -> bool {
        self.wf() && self.max_y <= self.min_y
    }

    /// The locked amount at `x`; [`CurveError::Overflow`] exactly when the
    /// product at `x` does not fit into 128 bits.
    pub fn value(&self, x: u64) -> (r: Result<u128, CurveError>)
        requires
            self.wf(),
        ensures
            r == value_result(self.product(x as int), self.locked(x as int)),
    {
        if x < self.min_x {
            Ok(self.min_y)
        } else if x > self.max_x {
            Ok(self.max_y)
        } else {
            interpolate(self.min_x, self.min_y, self.max_x, self.max_y, x)
        }
    }

    /// Accepts the curve exactly when its ends lie in order of time.
    pub fn validate(&self) -> (r: Result<(), CurveError>)
        ensures
            r == (if self.wf() {
                Ok::<(), CurveError>(())
            } else {
                Err(CurveError::PointsOutOfOrder)
            }),
    {
        if self.max_x <= self.min_x {
            return Err(CurveError::PointsOutOfOrder);
        }
        Ok(())
    }

    /// Accepts the curve exactly when it is well formed and never rises.
    pub fn validate_monotonic_decreasing(&self) -> (r: Result<(), CurveError>)
        ensures
            r == (if !self.wf() {
                Err::<(), CurveError>(CurveError::PointsOutOfOrder)
            } else if self.max_y > self.min_y {
                Err(CurveError::MonotonicIncreasing)
            } else {
                Ok(())
            }),
            r is Ok <==> self.falls(),
    {
        if self.max_x <= self.min_x {
            return Err(CurveError::PointsOutOfOrder);
        }
        if self.max_y > self.min_y {
            return Err(CurveError::MonotonicIncreasing);
        }
        Ok(())
    }

    /// The least and the greatest amount that the curve ever takes.
    pub fn range(&self) -> (r: (u128, u128))
        ensures
            r.0 <= r.1,
            r.0 == self.min_y || r.0 == self.max_y,
            r.1 == self.min_y || r.1 == self.max_y,
            r.0 <= self.min_y <= r.1,
            r.0 <= self.max_y <= r.1,
    {
        if self.max_y > self.min_y {
            (self.min_y, self.max_y)
        } else {
            (self.max_y, self.min_y)
        }
    }
}

/// A value of a curve: the locked amount, unless the product formed on the
/// way to it overflows.
pub open spec fn value_result(product: int, locked: int) -> Result<u128, CurveError> {
    if product > u128::MAX {
        Err(CurveError::Overflow)
    } else {
        Ok(locked as u128)
    }
}

/// The times of `steps` rise strictly, the first of them above zero.
pub open spec fn steps_ordered(steps: Seq<(u64, u128)>) -> bool {
    &&& steps.len() > 0 ==> steps[0].0 > 0
    &&& forall|i: int, j: int| 0 <= i < j < steps.len() ==> steps[i].0 < steps[j].0
}

/// `x` lies in the `i`-th piece: from the `i`-th point up to the next.
pub open spec fn in_piece(steps: Seq<(u64, u128)>, i: int, x: int) -> bool {
    0 <= i < steps.len() - 1 && steps[i].0 <= x < steps[i + 1].0
}

/// The piece that holds `x`, for an `x` between the first and the last point.
pub open spec fn piece_of(steps: Seq<(u64, u128)>, x: int) -> int {
    choose|i: int| in_piece(steps, i, x)
}

/// The locked amount at `x` along `steps`.
pub open spec fn steps_locked(steps: Seq<(u64, u128)>, x: int) -> int {
    if x <= steps[0].0 {
        steps[0].1 as int
    } else if x >= steps.last().0 {
        steps.last().1 as int
    } else {
        let i = piece_of(steps, x);
        line_value(
            steps[i].0 as int,
            steps[i].1 as int,
            steps[i + 1].0 as int,
            steps[i + 1].1 as int,
            x,
        )
    }
}

/// The product formed on the way to the value at `x` along `steps`.
pub open spec fn steps_product(steps: Seq<(u64, u128)>, x: int) -> int {
    if x <= steps[0].0 || x >= steps.last().0 {
        0
    } else {
        let i = piece_of(steps, x);
        line_product(steps[i].0 as int, steps[i].1 as int, steps[i + 1].1 as int, x)
    }
}

/// Some point of `steps` lies above the one before it.
pub open spec fn steps_rise(steps: Seq<(u64, u128)>) -> bool {
    exists|i: int| 0 <= i < steps.len() - 1 && #[trigger] steps[i + 1].1 > steps[i].1
}

/// Some point of `steps` lies below the one before it.
pub open spec fn steps_sink(steps: Seq<(u64, u128)>) -> bool {
    exists|i: int| 0 <= i < steps.len() - 1 && #[trigger] steps[i + 1].1 < steps[i].1
}

/// In ordered steps only one piece holds a given time.
pub proof fn lemma_piece_unique(steps: Seq<(u64, u128)>, i: int, x: int)
    requires
        steps_ordered(steps),
        in_piece(steps, i, x),
    ensures
        piece_of(steps, x) == i,
{
    let j = piece_of(steps, x);
    assert(in_piece(steps, j, x));
    if j < i {
        assert(steps[j + 1].0 <= steps[i].0) by {
            if j + 1 < i {
                assert(steps[j + 1].0 < steps[i].0);
            }
        }
    }
    if i < j {
        assert(steps[i + 1].0 <= steps[j].0) by {
            if i + 1 < j {
                assert(steps[i + 1].0 < steps[j].0);
            }
        }
    }
}

/// Every time between the first and the last point lies in some piece.
pub proof fn lemma_piece_exists(steps: Seq<(u64, u128)>, x: int)
    requires
        steps.len() > 0,
        steps[0].0 <= x < steps.last().0,
    ensures
        in_piece(steps, piece_of(steps, x), x),
    decreases steps.len(),
{
    let n = steps.len() as int;
    assert(n >= 2) by {
        if n == 1 {
            assert(steps.last() == steps[0]);
        }
    }
    if x < steps[n - 2].0 {
        let front = steps.drop_last();
        assert(front.last() == steps[n - 2]);
        lemma_piece_exists(front, x);
        let i = piece_of(front, x);
        assert(in_piece(front, i, x));
        assert(in_piece(steps, i, x));
    } else {
        assert(in_piece(steps, n - 2, x));
    }
}

/// Where no point lies above the one before it, none lies above any earlier
/// one.
pub proof fn lemma_no_rise_all_pairs(steps: Seq<(u64, u128)>, i: int, j: int)
    requires
        !steps_rise(steps),
        0 <= i <= j < steps.len(),
    ensures
        steps[i].1 >= steps[j].1,
    decreases j - i,
{
    if i < j {
        lemma_no_rise_all_pairs(steps, i, j - 1);
        let k = j - 1;
        assert(!(steps[k + 1].1 > steps[k].1));
    }
}


impl PiecewiseLinear {
    /// There is a point, and the points lie in order of time.
    pub open spec fn wf(&self) -> bool {
        self.steps@.len() > 0 && steps_ordered(self.steps@)
    }

    /// The locked amount at `x`, as a mathematical integer.
    pub open spec fn locked(&self, x: int) -> int {
        steps_locked(self.steps@, x)
    }

    /// The product formed on the way to the value at `x`.
    pub open spec fn product(&self, x: int) -> int {
        steps_product(self.steps@, x)
    }

    /// The curve never rises.
    pub open spec fn falls(&self) -> bool {
        self.wf() && !steps_rise(self.steps@)
    }

    /// The locked amount at `x`; [`CurveError::Overflow`] exactly when the
    /// product at `x` does not fit into 128 bits.
    pub fn value(&self, x: u64) -> (r: Result<u128, CurveError>)
        requires
            self.wf(),
        ensures
            r == value_result(self.product(x as int), self.locked(x as int)),
    {
        let n: usize = self.steps.len();
        if x <= self.steps[0].0 {
            return Ok(self.steps[0].1);
        }
        if x >= self.steps[n - 1].0 {
            return Ok(self.steps[n - 1].1);
        }
        let mut i: usize = 0;
        while x >= self.steps[i + 1].0
            invariant
                self.wf(),
                n == self.steps@.len(),
                0 <= i < n - 1,
                self.steps@[i as int].0 <= x < self.steps@[n - 1].0,
            decreases n - i,
        {
            i = i + 1;
            assert(i < n - 1) by {
                if i == n - 1 {
                    assert(false);
                }
            }
        }
        proof {
            lemma_piece_unique(self.steps@, i as int, x as int);
        }
        interpolate(self.steps[i].0, self.steps[i].1, self.steps[i + 1].0, self.steps[i + 1].1, x)
    }

    /// Accepts the curve exactly when it is well formed: it has a point, and
    /// each point lies strictly after the one before it, the first after
    /// time zero.
    pub fn validate(&self) -> (r: Result<(), CurveError>)
        ensures
            r == steps_validity(self.steps@),
            r is Ok <==> self.wf(),
    {
        let n: usize = self.steps.len();
        if n == 0 {
            return Err(CurveError::MissingSteps);
        }
        let mut last: u64 = 0;
        let mut i: usize = 0;
        while i < n
            invariant
                n == self.steps@.len(),
                0 <= i <= n,
                i > 0 ==> last == self.steps@[i - 1].0,
                i == 0 ==> last == 0,
                steps_ordered(self.steps@.take(i as int)),
            decreases n - i,
        {
            let x: u64 = self.steps[i].0;
            if x <= last {
                proof {
                    if steps_ordered(self.steps@) {
                        if i > 0 {
                            assert(self.steps@[i - 1].0 < self.steps@[i as int].0);
                        }
                    }
                }
                return Err(CurveError::PointsOutOfOrder);
            }
            proof {
                let before = self.steps@.take(i as int);
                let after = self.steps@.take(i + 1);
                assert forall|a: int, b: int| 0 <= a < b < after.len() implies after[a].0
                    < after[b].0 by {
                    if b < i {
                        assert(before[a].0 < before[b].0);
                    } else if a < i - 1 {
                        assert(before[a].0 < before[i - 1].0);
                    }
                }
                assert(after[0].0 > 0) by {
                    if i > 0 {
                        assert(before[0].0 > 0);
                    }
                }
            }
            last = x;
            i = i + 1;
        }
        assert(self.steps@.take(n as int) == self.steps@);
        Ok(())
    }

    /// Accepts the curve exactly when it is well formed and never rises. A
    /// well-formed curve that rises and falls is not monotonic; one that only
    /// rises is increasing.
    pub fn validate_monotonic_decreasing(&self) -> (r: Result<(), CurveError>)
        ensures
            r == steps_falling_validity(self.steps@),
            r is Ok <==> self.falls(),
    {
        match self.validate() {
            Err(e) => {
                return Err(e);
            },
            Ok(_) => {},
        }
        let n: usize = self.steps.len();
        let mut up: bool = false;
        let mut down: bool = false;
        let mut i: usize = 0;
        while i + 1 < n
            invariant
                n == self.steps@.len(),
                n > 0,
                0 <= i < n,
                up <==> steps_rise(self.steps@.take(i + 1)),
                down <==> steps_sink(self.steps@.take(i + 1)),
            decreases n - i,
        {
            let a: u128 = self.steps[i].1;
            let b: u128 = self.steps[i + 1].1;
            proof {
                let before = self.steps@.take(i + 1);
                let after = self.steps@.take(i + 2);
                if steps_rise(before) {
                    let k = choose|k: int|
                        0 <= k < before.len() - 1 && #[trigger] before[k + 1].1 > before[k].1;
                    assert(after[k + 1].1 > after[k].1);
                }
                if steps_sink(before) {
                    let k = choose|k: int|
                        0 <= k < before.len() - 1 && #[trigger] before[k + 1].1 < before[k].1;
                    assert(after[k + 1].1 < after[k].1);
                }
                if b > a {
                    assert(after[i as int + 1].1 > after[i as int].1);
                }
                if b < a {
                    assert(after[i as int + 1].1 < after[i as int].1);
                }
                if steps_rise(after) && !(b > a) {
                    let k = choose|k: int|
                        0 <= k < after.len() - 1 && #[trigger] after[k + 1].1 > after[k].1;
                    assert(k < i);
                    assert(before[k + 1].1 > before[k].1);
                }
                if steps_sink(after) && !(b < a) {
                    let k = choose|k: int|
                        0 <= k < after.len() - 1 && #[trigger] after[k + 1].1 < after[k].1;
                    assert(k < i);
                    assert(before[k + 1].1 < before[k].1);
                }
            }
            if b > a {
                up = true;
            }
            if b < a {
                down = true;
            }
            i = i + 1;
        }
        assert(self.steps@.take(n as int) == self.steps@);
        if up && down {
            Err(CurveError::NotMonotonic)
        } else if up {
            Err(CurveError::MonotonicIncreasing)
        } else {
            Ok(())
        }
    }

    /// The least and the greatest amount among the points, which are the
    /// least and the greatest that the curve ever takes.
    pub fn range(&self) -> (r: (u128, u128))
        requires
            self.steps@.len() > 0,
        ensures
            steps_bounds(self.steps@, r.0, r.1),
    {
        let n: usize = self.steps.len();
        let mut low: u128 = self.steps[0].1;
        let mut high: u128 = self.steps[0].1;
        let mut i: usize = 1;
        assert(self.steps@.take(1)[0].1 == low);
        while i < n
            invariant
                n == self.steps@.len(),
                1 <= i <= n,
                steps_bounds(self.steps@.take(i as int), low, high),
            decreases n - i,
        {
            let y: u128 = self.steps[i].1;
            proof {
                let before = self.steps@.take(i as int);
                let after = self.steps@.take(i + 1);
                assert(after[i as int].1 == y);
                assert forall|k: int| 0 <= k < after.len() implies low <= #[trigger] after[k].1
                    || y <= after[k].1 by {
                    if k < i {
                        assert(before[k].1 >= low);
                    }
                }
                assert forall|k: int| 0 <= k < after.len() implies #[trigger] after[k].1 <= high
                    || after[k].1 <= y by {
                    if k < i {
                        assert(before[k].1 <= high);
                    }
                }
                let kl = choose|k: int| 0 <= k < before.len() && #[trigger] before[k].1 == low;
                assert(after[kl].1 == low);
                let kh = choose|k: int| 0 <= k < before.len() && #[trigger] before[k].1 == high;
                assert(after[kh].1 == high);
            }
            if y < low {
                low = y;
            }
            if y > high {
                high = y;
            }
            i = i + 1;
        }
        assert(self.steps@.take(n as int) == self.steps@);
        (low, high)
    }
}

/// What [`PiecewiseLinear::validate`] returns.
pub open spec fn steps_validity(steps: Seq<(u64, u128)>) -> Result<(), CurveError> {
    if steps.len() == 0 {
        Err(CurveError::MissingSteps)
    } else if !steps_ordered(steps) {
        Err(CurveError::PointsOutOfOrder)
    } else {
        Ok(())
    }
}

/// What [`PiecewiseLinear::validate_monotonic_decreasing`] returns.
pub open spec fn steps_falling_validity(steps: Seq<(u64, u128)>) -> Result<(), CurveError> {
    if steps_validity(steps) is Err {
        steps_validity(steps)
    } else if steps_rise(steps) && steps_sink(steps) {
        Err(CurveError::NotMonotonic)
    } else if steps_rise(steps) {
        Err(CurveError::MonotonicIncreasing)
    } else {
        Ok(())
    }
}

/// `low` is the least and `high` the greatest amount among the points.
pub open spec fn steps_bounds(steps: Seq<(u64, u128)>, low: u128, high: u128) -> bool {
    &&& forall|k: int| 0 <= k < steps.len() ==> low <= #[trigger] steps[k].1 <= high
    &&& exists|k: int| 0 <= k < steps.len() && #[trigger] steps[k].1 == low
    &&& exists|k: int| 0 <= k < steps.len() && #[trigger] steps[k].1 == high
}


/// Along ordered steps that never rise, the locked amount in a piece lies
/// between the amounts at the piece's two ends.
pub proof fn lemma_steps_locked_in_piece(steps: Seq<(u64, u128)>, i: int, x: int)
    requires
        steps_ordered(steps),
        !steps_rise(steps),
        in_piece(steps, i, x),
    ensures
        steps[i + 1].1 <= steps_locked(steps, x) <= steps[i].1,
{
    lemma_no_rise_all_pairs(steps, 0, i);
    lemma_no_rise_all_pairs(steps, i, i + 1);
    let n = steps.len() as int;
    if i + 1 < n - 1 {
        assert(steps[i + 1].0 < steps[n - 1].0);
    }
    if x > steps[0].0 {
        lemma_piece_unique(steps, i, x);
        lemma_line_value_bounds(
            steps[i].0 as int,
            steps[i].1 as int,
            steps[i + 1].0 as int,
            steps[i + 1].1 as int,
            x,
        );
    } else {
        if 0 < i {
            assert(steps[0].0 < steps[i].0);
        }
    }
}

/// Along ordered steps that never rise, the locked amount never rises from
/// one time to a later one.
pub proof fn lemma_steps_never_rise(steps: Seq<(u64, u128)>, a: int, b: int)
    requires
        steps.len() > 0,
        steps_ordered(steps),
        !steps_rise(steps),
        a <= b,
    ensures
        steps_locked(steps, a) >= steps_locked(steps, b),
{
    let n = steps.len() as int;
    lemma_no_rise_all_pairs(steps, 0, n - 1);
    if b <= steps[0].0 {
    } else if a >= steps[n - 1].0 {
    } else if a <= steps[0].0 {
        if b < steps[n - 1].0 {
            lemma_piece_exists(steps, b);
            let j = piece_of(steps, b);
            lemma_steps_locked_in_piece(steps, j, b);
            lemma_no_rise_all_pairs(steps, 0, j);
        }
    } else if b >= steps[n - 1].0 {
        lemma_piece_exists(steps, a);
        let i = piece_of(steps, a);
        lemma_steps_locked_in_piece(steps, i, a);
        lemma_no_rise_all_pairs(steps, i + 1, n - 1);
    } else {
        lemma_piece_exists(steps, a);
        lemma_piece_exists(steps, b);
        let i = piece_of(steps, a);
        let j = piece_of(steps, b);
        lemma_steps_locked_in_piece(steps, i, a);
        lemma_steps_locked_in_piece(steps, j, b);
        if j < i {
            if j + 1 < i {
                assert(steps[j + 1].0 < steps[i].0);
            }
            assert(false);
        } else if i < j {
            lemma_no_rise_all_pairs(steps, i + 1, j);
        } else {
            lemma_no_rise_all_pairs(steps, i, i + 1);
            lemma_line_value_falls(
                steps[i].0 as int,
                steps[i].1 as int,
                steps[i + 1].0 as int,
                steps[i + 1].1 as int,
                a,
                b,
            );
        }
    }
}

impl CurveModel {
    /// The curve can be evaluated: its points lie in order of time.
    pub open spec fn wf(self) -> bool {
        match self {
            CurveModel::Constant { .. } => true,
            CurveModel::SaturatingLinear(s) => s.wf(),
            CurveModel::PiecewiseLinear { steps } => steps.len() > 0 && steps_ordered(steps),
        }
    }

    /// The curve is well formed and never rises: it is a release schedule.
    pub open spec fn falls(self) -> bool {
        match self {
            CurveModel::Constant { .. } => true,
            CurveModel::SaturatingLinear(s) => s.falls(),
            CurveModel::PiecewiseLinear { steps } => self.wf() && !steps_rise(steps),
        }
    }

    /// The locked amount at `x`, as a mathematical integer.
    pub open spec fn locked(self, x: int) -> int {
        match self {
            CurveModel::Constant { y } => y as int,
            CurveModel::SaturatingLinear(s) => s.locked(x),
            CurveModel::PiecewiseLinear { steps } => steps_locked(steps, x),
        }
    }

    /// The product formed on the way to the value at `x`.
    pub open spec fn product(self, x: int) -> int {
        match self {
            CurveModel::Constant { .. } => 0,
            CurveModel::SaturatingLinear(s) => s.product(x),
            CurveModel::PiecewiseLinear { steps } => steps_product(steps, x),
        }
    }

    /// The value at `x`: the locked amount, or an overflow where the product
    /// formed on the way does not fit into 128 bits.
    pub open spec fn value(self, x: u64) -> Result<u128, CurveError> {
        value_result(self.product(x as int), self.locked(x as int))
    }

    /// Whether the curve is well formed, and if not, why.
    pub open spec fn validity(self) -> Result<(), CurveError> {
        match self {
            CurveModel::Constant { .. } => Ok(()),
            CurveModel::SaturatingLinear(s) => if s.wf() {
                Ok(())
            } else {
                Err(CurveError::PointsOutOfOrder)
            },
            CurveModel::PiecewiseLinear { steps } => steps_validity(steps),
        }
    }

    /// Whether the curve is a release schedule, and if not, why.
    pub open spec fn falling_validity(self) -> Result<(), CurveError> {
        match self {
            CurveModel::Constant { .. } => Ok(()),
            CurveModel::SaturatingLinear(s) => if !s.wf() {
                Err(CurveError::PointsOutOfOrder)
            } else if s.max_y > s.min_y {
                Err(CurveError::MonotonicIncreasing)
            } else {
                Ok(())
            },
            CurveModel::PiecewiseLinear { steps } => steps_falling_validity(steps),
        }
    }

    /// `low` is the least and `high` the greatest amount among the curve's
    /// points.
    pub open spec fn bounds(self, low: u128, high: u128) -> bool {
        match self {
            CurveModel::Constant { y } => low == y && high == y,
            CurveModel::SaturatingLinear(s) => {
                &&& low <= high
                &&& low == s.min_y || low == s.max_y
                &&& high == s.min_y || high == s.max_y
                &&& low <= s.min_y <= high
                &&& low <= s.max_y <= high
            },
            CurveModel::PiecewiseLinear { steps } => steps_bounds(steps, low, high),
        }
    }

    /// The curve moved `by` later in time; an overflow where a time would
    /// pass the end of 64 bits.
    pub open spec fn shifted(self, by: u64) -> Result<CurveModel, CurveError> {
        match self {
            CurveModel::Constant { .. } => Ok(self),
            CurveModel::SaturatingLinear(s) => if s.min_x + by > u64::MAX || s.max_x + by
                > u64::MAX {
                Err(CurveError::Overflow)
            } else {
                Ok(
                    CurveModel::SaturatingLinear(
                        SaturatingLinear {
                            min_x: (s.min_x + by) as u64,
                            min_y: s.min_y,
                            max_x: (s.max_x + by) as u64,
                            max_y: s.max_y,
                        },
                    ),
                )
            },
            CurveModel::PiecewiseLinear { steps } => if steps_shift_overflows(steps, by) {
                Err(CurveError::Overflow)
            } else {
                Ok(CurveModel::PiecewiseLinear { steps: steps_shifted(steps, by) })
            },
        }
    }

    /// The last time at which the curve changes, if there is one.
    pub open spec fn last_time(self) -> Option<u64> {
        match self {
            CurveModel::Constant { .. } => None,
            CurveModel::SaturatingLinear(s) => Some(s.max_x),
            CurveModel::PiecewiseLinear { steps } => if steps.len() == 0 {
                None
            } else {
                Some(steps.last().0)
            },
        }
    }
}

/// `steps` with every time moved `by` later.
pub open spec fn steps_shifted(steps: Seq<(u64, u128)>, by: u64) -> Seq<(u64, u128)> {
    Seq::new(steps.len(), |i: int| ((steps[i].0 + by) as u64, steps[i].1))
}

/// Some time of `steps`, moved `by` later, passes the end of 64 bits.
pub open spec fn steps_shift_overflows(steps: Seq<(u64, u128)>, by: u64) -> bool {
    exists|i: int| 0 <= i < steps.len() && (#[trigger] steps[i]).0 + by > u64::MAX
}

impl Curve {
    /// The line from `min` to `max`, each a time and an amount, saturating
    /// outside.
    pub fn saturating_linear(min: (u64, u128), max: (u64, u128)) -> (r: Curve)
        ensures
            r@ == CurveModel::SaturatingLinear(
                SaturatingLinear { min_x: min.0, min_y: min.1, max_x: max.0, max_y: max.1 },
            ),
    {
        Curve::SaturatingLinear(
            SaturatingLinear { min_x: min.0, min_y: min.1, max_x: max.0, max_y: max.1 },
        )
    }

    /// The curve that is `y` at all times.
    pub fn constant(y: u128) -> (r: Curve)
        ensures
            r@ == (CurveModel::Constant { y }),
    {
        Curve::Constant { y }
    }

    /// The locked amount at `x`; [`CurveError::Overflow`] exactly when the
    /// product formed on the way does not fit into 128 bits.
    pub fn value(&self, x: u64) -> (r: Result<u128, CurveError>)
        requires
            self@.wf(),
        ensures
            r == self@.value(x),
    {
        match self {
            Curve::Constant { y } => Ok(*y),
            Curve::SaturatingLinear(s) => s.value(x),
            Curve::PiecewiseLinear(p) => p.value(x),
        }
    }

    /// Accepts the curve exactly when it is well formed.
    pub fn validate(&self) -> (r: Result<(), CurveError>)
        ensures
            r == self@.validity(),
            r is Ok <==> self@.wf(),
    {
        match self {
            Curve::Constant { .. } => Ok(()),
            Curve::SaturatingLinear(s) => s.validate(),
            Curve::PiecewiseLinear(p) => p.validate(),
        }
    }

    /// Accepts the curve exactly when it is well formed and never rises.
    pub fn validate_monotonic_decreasing(&self) -> (r: Result<(), CurveError>)
        ensures
            r == self@.falling_validity(),
            r is Ok <==> self@.falls(),
    {
        match self {
            Curve::Constant { .. } => Ok(()),
            Curve::SaturatingLinear(s) => s.validate_monotonic_decreasing(),
            Curve::PiecewiseLinear(p) => p.validate_monotonic_decreasing(),
        }
    }

    /// The least and the greatest amount that the curve ever takes.
    pub fn range(&self) -> (r: (u128, u128))
        requires
            self@.wf(),
        ensures
            self@.bounds(r.0, r.1),
    {
        match self {
            Curve::Constant { y } => (*y, *y),
            Curve::SaturatingLinear(s) => s.range(),
            Curve::PiecewiseLinear(p) => p.range(),
        }
    }
}

/// A release schedule never locks more at a later time than at an earlier
/// one: what it releases between two times is never negative.
pub proof fn law_never_rises(curve: CurveModel, a: int, b: int)
    requires
        curve.falls(),
        a <= b,
    ensures
        curve.locked(a) >= curve.locked(b),
{
    match curve {
        CurveModel::Constant { .. } => {},
        CurveModel::SaturatingLinear(s) => {
            let x0 = s.min_x as int;
            let x1 = s.max_x as int;
            if a < x0 {
                if b >= x0 && b <= x1 {
                    lemma_line_value_bounds(x0, s.min_y as int, x1, s.max_y as int, b);
                }
            } else if a <= x1 {
                lemma_line_value_bounds(x0, s.min_y as int, x1, s.max_y as int, a);
                if b <= x1 {
                    lemma_line_value_falls(x0, s.min_y as int, x1, s.max_y as int, a, b);
                }
            }
        },
        CurveModel::PiecewiseLinear { steps } => {
            lemma_steps_never_rise(steps, a, b);
        },
    }
}

/// What a well-formed curve locks at any time lies between the least and
/// the greatest amount among its points: the range of the curve is the
/// range of its values.
pub proof fn law_values_within_range(curve: CurveModel, low: u128, high: u128, x: int)
    requires
        curve.wf(),
        curve.bounds(low, high),
    ensures
        low <= curve.locked(x) <= high,
{
    match curve {
        CurveModel::Constant { .. } => {},
        CurveModel::SaturatingLinear(s) => {
            if s.min_x <= x <= s.max_x {
                lemma_line_value_bounds(
                    s.min_x as int,
                    s.min_y as int,
                    s.max_x as int,
                    s.max_y as int,
                    x,
                );
            }
        },
        CurveModel::PiecewiseLinear { steps } => {
            let n = steps.len() as int;
            assert(low <= steps[0].1 <= high);
            assert(low <= steps[n - 1].1 <= high);
            if x <= steps[0].0 {
            } else if x >= steps[n - 1].0 {
            } else {
                lemma_piece_exists(steps, x);
                let i = piece_of(steps, x);
                assert(steps[i].0 < steps[i + 1].0);
                assert(low <= steps[i].1 <= high);
                assert(low <= steps[i + 1].1 <= high);
                lemma_line_value_bounds(
                    steps[i].0 as int,
                    steps[i].1 as int,
                    steps[i + 1].0 as int,
                    steps[i + 1].1 as int,
                    x,
                );
            }
        },
    }
}

/// What a well-formed curve locks is never negative and fits into 128
/// bits.
pub proof fn lemma_locked_nonnegative(curve: CurveModel, x: int)
    requires
        curve.wf(),
    ensures
        0 <= curve.locked(x) <= u128::MAX,
{
    match curve {
        CurveModel::Constant { .. } => {},
        CurveModel::SaturatingLinear(s) => {
            if s.min_x <= x <= s.max_x {
                lemma_line_value_bounds(
                    s.min_x as int,
                    s.min_y as int,
                    s.max_x as int,
                    s.max_y as int,
                    x,
                );
            }
        },
        CurveModel::PiecewiseLinear { steps } => {
            let n = steps.len() as int;
            if x <= steps[0].0 {
            } else if x >= steps[n - 1].0 {
            } else {
                lemma_piece_exists(steps, x);
                let i = piece_of(steps, x);
                assert(steps[i].0 < steps[i + 1].0);
                lemma_line_value_bounds(
                    steps[i].0 as int,
                    steps[i].1 as int,
                    steps[i + 1].0 as int,
                    steps[i + 1].1 as int,
                    x,
                );
            }
        },
    }
}

/// A curve has one least and one greatest amount.
pub proof fn lemma_bounds_unique(curve: CurveModel, l1: u128, h1: u128, l2: u128, h2: u128)
    requires
        curve.bounds(l1, h1),
        curve.bounds(l2, h2),
    ensures
        l1 == l2,
        h1 == h2,
{
    match curve {
        CurveModel::Constant { .. } => {},
        CurveModel::SaturatingLinear(s) => {},
        CurveModel::PiecewiseLinear { steps } => {
            let a = choose|k: int| 0 <= k < steps.len() && (#[trigger] steps[k]).1 == l1;
            let b = choose|k: int| 0 <= k < steps.len() && (#[trigger] steps[k]).1 == l2;
            let c = choose|k: int| 0 <= k < steps.len() && (#[trigger] steps[k]).1 == h1;
            let d = choose|k: int| 0 <= k < steps.len() && (#[trigger] steps[k]).1 == h2;
            assert(l2 <= steps[a].1 <= h2);
            assert(l1 <= steps[b].1 <= h1);
            assert(l2 <= steps[c].1 <= h2);
            assert(l1 <= steps[d].1 <= h1);
        },
    }
}

/// A well-formed curve, moved in time, is well formed.
pub proof fn lemma_shift_keeps_wf(curve: CurveModel, by: u64)
    requires
        curve.wf(),
        curve.shifted(by) is Ok,
    ensures
        curve.shifted(by).unwrap().wf(),
{
    match curve {
        CurveModel::Constant { .. } => {},
        CurveModel::SaturatingLinear(s) => {},
        CurveModel::PiecewiseLinear { steps } => {
            let moved = steps_shifted(steps, by);
            assert forall|i: int| 0 <= i < steps.len() implies (#[trigger] steps[i]).0 + by
                <= u64::MAX by {}
            assert forall|i: int, j: int| 0 <= i < j < moved.len() implies moved[i].0
                < moved[j].0 by {
                assert(steps[i].0 < steps[j].0);
                assert(steps[i].0 + by <= u64::MAX);
                assert(steps[j].0 + by <= u64::MAX);
            }
            assert(steps[0].0 + by <= u64::MAX);
        },
    }
}

/// A shift moves the curve in time: the shifted curve locks at every
/// time what the curve locks so much earlier.
pub proof fn law_shift_moves_in_time(curve: CurveModel, by: u64, x: int)
    requires
        curve.wf(),
        curve.shifted(by) is Ok,
    ensures
        curve.shifted(by).unwrap().locked(x + by) == curve.locked(x),
        curve.shifted(by).unwrap().product(x + by) == curve.product(x),
        curve.falls() ==> curve.shifted(by).unwrap().falls(),
{
    lemma_shift_keeps_wf(curve, by);
    match curve {
        CurveModel::Constant { .. } => {},
        CurveModel::SaturatingLinear(s) => {},
        CurveModel::PiecewiseLinear { steps } => {
            let moved = steps_shifted(steps, by);
            let n = steps.len() as int;
            assert forall|i: int| 0 <= i < n implies (#[trigger] moved[i]).0 == steps[i].0 + by
                && moved[i].1 == steps[i].1 by {
                assert(steps[i].0 + by <= u64::MAX);
            }
            if steps[0].0 < x < steps[n - 1].0 {
                lemma_piece_exists(steps, x);
                let i = piece_of(steps, x);
                assert(in_piece(moved, i, x + by));
                lemma_piece_unique(moved, i, x + by);
            }
            if !steps_rise(steps) && steps_rise(moved) {
                let k = choose|k: int|
                    0 <= k < moved.len() - 1 && #[trigger] moved[k + 1].1 > moved[k].1;
                assert(steps[k + 1].1 > steps[k].1);
            }
        },
    }
}

impl Curve {
    /// A copy of the curve.
    pub fn copy(&self) -> (r: Curve)
        ensures
            r@ == self@,
    {
        match self {
            Curve::Constant { y } => Curve::Constant { y: *y },
            Curve::SaturatingLinear(s) => Curve::SaturatingLinear(*s),
            Curve::PiecewiseLinear(p) => Curve::PiecewiseLinear(
                PiecewiseLinear { steps: crate::text::copy_list(&p.steps) },
            ),
        }
    }
}

/// Moving a curve in time, and asking where it ends.
pub trait CurveExt: Sized {
    /// The curve as one of the three shapes.
    spec fn as_curve(&self) -> CurveModel;

    /// Shifts this curve to the right by `x` units. Fails with an overflow
    /// exactly when a time would pass the end of 64 bits.
    fn shift(self, x: u64) -> (r: Result<Curve, CurveError>)
        ensures
            outcome_view(r) == self.as_curve().shifted(x),
    ;

    /// Returns the last `x` value of the curve, if any: none for a constant
    /// and for a curve without points.
    fn end(&self) -> (r: Option<u64>)
        ensures
            r == self.as_curve().last_time(),
    ;
}

impl CurveExt for SaturatingLinear {
    open spec fn as_curve(&self) -> CurveModel {
        CurveModel::SaturatingLinear(*self)
    }

    fn shift(self, x: u64) -> (r: Result<Curve, CurveError>) {
        let min_x: u64 = match self.min_x.checked_add(x) {
            Some(v) => v,
            None => {
                return Err(CurveError::Overflow);
            },
        };
        let max_x: u64 = match self.max_x.checked_add(x) {
            Some(v) => v,
            None => {
                return Err(CurveError::Overflow);
            },
        };
        Ok(
            Curve::SaturatingLinear(
                SaturatingLinear { min_x, min_y: self.min_y, max_x, max_y: self.max_y },
            ),
        )
    }

    fn end(&self) -> (r: Option<u64>) {
        Some(self.max_x)
    }
}

impl CurveExt for PiecewiseLinear {
    open spec fn as_curve(&self) -> CurveModel {
        CurveModel::PiecewiseLinear { steps: self.steps@ }
    }

    fn shift(self, by: u64) -> (r: Result<Curve, CurveError>) {
        let n: usize = self.steps.len();
        let mut steps: Vec<(u64, u128)> = Vec::new();
        let mut i: usize = 0;
        while i < n
            invariant
                n == self.steps@.len(),
                0 <= i <= n,
                steps@ == steps_shifted(self.steps@.take(i as int), by),
                !steps_shift_overflows(self.steps@.take(i as int), by),
            decreases n - i,
        {
            let step: (u64, u128) = self.steps[i];
            proof {
                let before = self.steps@.take(i as int);
                let after = self.steps@.take(i + 1);
                assert(after[i as int] == step);
                if step.0 + by <= u64::MAX && steps_shift_overflows(after, by) {
                    let k = choose|k: int|
                        0 <= k < after.len() && (#[trigger] after[k]).0 + by > u64::MAX;
                    assert(before[k].0 + by > u64::MAX);
                }
            }
            match step.0.checked_add(by) {
                Some(x) => {
                    steps.push((x, step.1));
                },
                None => {
                    assert((self.steps@[i as int]).0 + by > u64::MAX);
                    return Err(CurveError::Overflow);
                },
            }
            assert(steps@ =~= steps_shifted(self.steps@.take(i + 1), by));
            i = i + 1;
        }
        assert(self.steps@.take(n as int) == self.steps@);
        Ok(Curve::PiecewiseLinear(PiecewiseLinear { steps }))
    }

    fn end(&self) -> (r: Option<u64>) {
        let n: usize = self.steps.len();
        if n == 0 {
            None
        } else {
            Some(self.steps[n - 1].0)
        }
    }
}

impl CurveExt for Curve {
    open spec fn as_curve(&self) -> CurveModel {
        self@
    }

    fn shift(self, x: u64) -> (r: Result<Curve, CurveError>) {
        match self {
            Curve::Constant { y } => Ok(Curve::Constant { y }),
            Curve::SaturatingLinear(sl) => sl.shift(x),
            Curve::PiecewiseLinear(pl) => pl.shift(x),
        }
    }

    fn end(&self) -> (r: Option<u64>) {
        match self {
            Curve::Constant { .. } => None,
            Curve::SaturatingLinear(sl) => sl.end(),
            Curve::PiecewiseLinear(pl) => pl.end(),
        }
    }
}

} // verus!
