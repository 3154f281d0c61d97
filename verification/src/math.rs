//! Integer and fixed-point arithmetic shared by the whole ledger.

use vstd::prelude::*;

verus! {

/// `floor(a * num / den)` over the mathematical integers, where it is defined
/// and fits into 128 bits.
pub open spec fn mul_div_floor_spec(a: int, num: int, den: int) -> Option<u128> {
    if den <= 0 || (a * num) / den > u128::MAX {
        None
    } else {
        Some(((a * num) / den) as u128)
    }
}

/// Calls `cosmwasm_std::Uint128::checked_multiply_ratio`, which multiplies in
/// 256 bits and divides with rounding towards zero. It reports a zero
/// denominator and a quotient beyond 128 bits as errors; both are `None` here.
#[verifier::external_body]
pub(crate) fn mul_div_floor(a: u128, num: u128, den: u128) -> (r: Option<u128>)
    ensures
        r == mul_div_floor_spec(a as int, num as int, den as int),
{
    match cosmwasm_std::Uint128::new(a).checked_multiply_ratio(num, den) {
        Ok(v) => Some(v.u128()),
        Err(_) => None,
    }
}

/// The number of atomic units in one whole: ten to the eighteenth.
pub const DECIMAL_FRACTIONAL: u128 = 1_000_000_000_000_000_000u128;

/// A non-negative fixed-point number with eighteen decimal places, held as
/// its count of atomic units.
#[derive(Clone, Copy, Debug, PartialEq, Eq, Structural)]
pub struct Decimal {
    pub atomics: u128,
}

impl Decimal {
    /// The number with the given count of atomic units.
    pub fn new(atomics: u128) -> (r: Decimal)
        ensures
            r.atomics == atomics,
    {
        Decimal { atomics }
    }

    /// Zero.
    pub fn zero() -> (r: Decimal)
        ensures
            r.atomics == 0,
    {
        Decimal { atomics: 0 }
    }

    /// One.
    pub fn one() -> (r: Decimal)
        ensures
            r.atomics == DECIMAL_FRACTIONAL,
    {
        Decimal { atomics: DECIMAL_FRACTIONAL }
    }

    /// `x` hundredths.
    pub fn percent(x: u64) -> (r: Decimal)
        ensures
            r.atomics == x * 10_000_000_000_000_000,
    {
        let wide: u128 = x as u128;
        Decimal { atomics: wide * 10_000_000_000_000_000u128 }
    }

    /// `x` thousandths.
    pub fn permille(x: u64) -> (r: Decimal)
        ensures
            r.atomics == x * 1_000_000_000_000_000,
    {
        let wide: u128 = x as u128;
        Decimal { atomics: wide * 1_000_000_000_000_000u128 }
    }

    /// The whole number `units`; `None` exactly when it does not fit.
    pub fn from_units(units: u128) -> (r: Option<Decimal>)
        ensures
            r == (if units * DECIMAL_FRACTIONAL > u128::MAX {
                None
            } else {
                Some(Decimal { atomics: (units * DECIMAL_FRACTIONAL) as u128 })
            }),
    {
        match units.checked_mul(DECIMAL_FRACTIONAL) {
            Some(atomics) => Some(Decimal { atomics }),
            None => None,
        }
    }

    /// Whether the number is zero.
    pub fn is_zero(&self) -> (r: bool)
        ensures
            r == (self.atomics == 0),
    {
        self.atomics == 0
    }

    /// `numerator / denominator`, rounded down to eighteen places; `None`
    /// exactly when the denominator is zero or the quotient does not fit.
    pub fn from_ratio(numerator: u128, denominator: u128) -> (r: Option<Decimal>)
        ensures
            r == decimal_of(
                mul_div_floor_spec(
                    numerator as int,
                    DECIMAL_FRACTIONAL as int,
                    denominator as int,
                ),
            ),
    {
        match mul_div_floor(numerator, DECIMAL_FRACTIONAL, denominator) {
            Some(atomics) => Some(Decimal { atomics }),
            None => None,
        }
    }

    /// The product of two numbers, rounded down to eighteen places; `None`
    /// exactly when it does not fit.
    pub fn checked_mul(&self, other: Decimal) -> (r: Option<Decimal>)
        ensures
            r == decimal_of(
                mul_div_floor_spec(
                    self.atomics as int,
                    other.atomics as int,
                    DECIMAL_FRACTIONAL as int,
                ),
            ),
    {
        match mul_div_floor(self.atomics, other.atomics, DECIMAL_FRACTIONAL) {
            Some(atomics) => Some(Decimal { atomics }),
            None => None,
        }
    }

    /// The number divided by a whole number, rounded down to eighteen places;
    /// `None` exactly when the divisor is zero.
    pub fn checked_div_int(&self, divisor: u128) -> (r: Option<Decimal>)
        ensures
            r == (if divisor == 0 {
                None
            } else {
                Some(Decimal { atomics: self.atomics / divisor })
            }),
    {
        if divisor == 0 {
            None
        } else {
            Some(Decimal { atomics: self.atomics / divisor })
        }
    }
}

/// A count of atomic units, where there is one, as a number.
pub open spec fn decimal_of(atomics: Option<u128>) -> Option<Decimal> {
    match atomics {
        Some(a) => Some(Decimal { atomics: a }),
        None => None,
    }
}

/// `amount` times `ratio`, rounded down to a whole number; `None` exactly
/// when the product does not fit into 128 bits.
pub fn mul_floor(amount: u128, ratio: Decimal) -> (r: Option<u128>)
    ensures
        r == mul_div_floor_spec(amount as int, ratio.atomics as int, DECIMAL_FRACTIONAL as int),
{
    mul_div_floor(amount, ratio.atomics, DECIMAL_FRACTIONAL)
}


/// Ten to the `n`.
pub open spec fn pow10(n: nat) -> nat
    decreases n,
{
    if n == 0 {
        1
    } else {
        10 * pow10((n - 1) as nat)
    }
}

/// Ten to the `n`; `None` exactly when it does not fit into 128 bits.
pub fn checked_pow10(n: u8) -> (r: Option<u128>)
    ensures
        r == (if pow10(n as nat) > u128::MAX {
            None
        } else {
            Some(pow10(n as nat) as u128)
        }),
{
    let mut value: u128 = 1;
    let mut i: u8 = 0;
    while i < n
        invariant
            0 <= i <= n,
            value == pow10(i as nat),
        decreases n - i,
    {
        proof {
            if value * 10 > u128::MAX {
                lemma_pow10_grows((i + 1) as nat, n as nat);
            }
        }
        value = match value.checked_mul(10) {
            Some(v) => v,
            None => {
                return None;
            },
        };
        i = i + 1;
    }
    Some(value)
}

/// Powers of ten grow with the exponent.
pub proof fn lemma_pow10_grows(a: nat, b: nat)
    requires
        a <= b,
    ensures
        1 <= pow10(a) <= pow10(b),
    decreases b,
{
    if a < b {
        lemma_pow10_grows(a, (b - 1) as nat);
    } else if a > 0 {
        lemma_pow10_grows((a - 1) as nat, (b - 1) as nat);
    }
}

impl Decimal {
    /// The number with `atomics` units of ten to the minus
    /// `decimal_places`, rounded down to eighteen places; `None` exactly
    /// when it does not fit into 128 bits.
    pub fn from_atomics(atomics: u128, decimal_places: u32) -> (r: Option<Decimal>)
        ensures
            r == atomics_result(atomics, decimal_places),
    {
        if decimal_places <= 18 {
            let digits: u8 = (18 - decimal_places) as u8;
            proof {
                lemma_pow10_grows(digits as nat, 18);
                assert(pow10(18) == 1_000_000_000_000_000_000) by {
                    reveal_with_fuel(pow10, 19);
                }
            }
            let factor: u128 = match checked_pow10(digits) {
                Some(v) => v,
                None => {
                    return None;
                },
            };
            match atomics.checked_mul(factor) {
                Some(v) => Some(Decimal { atomics: v }),
                None => None,
            }
        } else if decimal_places - 18 > 255 {
            proof {
                lemma_pow10_grows(39, (decimal_places - 18) as nat);
                lemma_pow10_39();
            }
            Some(Decimal { atomics: 0 })
        } else {
            let digits: u8 = (decimal_places - 18) as u8;
            proof {
                lemma_pow10_grows(0, digits as nat);
            }
            match checked_pow10(digits) {
                Some(factor) => Some(Decimal { atomics: atomics / factor }),
                None => Some(Decimal { atomics: 0 }),
            }
        }
    }
}

/// What [`Decimal::from_atomics`] returns: the units times a power of ten
/// where the places are eighteen or fewer, unless that does not fit; else
/// the units divided by a power of ten, which is nothing where the power
/// does not fit into 128 bits.
pub open spec fn atomics_result(atomics: u128, decimal_places: u32) -> Option<Decimal> {
    if decimal_places <= 18 {
        let factor = pow10((18 - decimal_places) as nat);
        if atomics as int * factor as int > u128::MAX {
            None
        } else {
            Some(Decimal { atomics: (atomics as int * factor as int) as u128 })
        }
    } else {
        let factor = pow10((decimal_places - 18) as nat);
        if factor > u128::MAX {
            Some(Decimal { atomics: 0 })
        } else {
            Some(Decimal { atomics: (atomics as int / factor as int) as u128 })
        }
    }
}

/// Ten to the 39th does not fit into 128 bits.
pub proof fn lemma_pow10_39()
    ensures
        pow10(39) > u128::MAX,
{
    reveal_with_fuel(pow10, 40);
}

} // verus!
