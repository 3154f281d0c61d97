//! The yearly reward of a bonded token, projected from what a flow's
//! schedule unlocks.

use vstd::prelude::*;
use crate::asset::{AssetInfoValidated, AssetModel};
use crate::curve::{lemma_locked_nonnegative, law_never_rises, Curve, CurveExt, CurveModel};
use crate::math::{decimal_of, mul_div_floor_spec, Decimal, DECIMAL_FRACTIONAL};

verus! {

/// The seconds of a year of 365 days.
pub const SECONDS_PER_YEAR: u64 = 31536000;

/// The yearly reward of one token bonded in a tier, in one asset.
#[derive(Debug, PartialEq, Eq)]
pub struct AnnualizedReward {
    /// The asset that is paid.
    pub info: AssetInfoValidated,
    /// The units per token and year; nothing where the tier has no power
    /// in the flow that pays the asset.
    pub amount: Option<Decimal>,
}

impl View for AnnualizedReward {
    type V = (AssetModel, Option<Decimal>);

    open spec fn view(&self) -> (AssetModel, Option<Decimal>) {
        (self.info@, self.amount)
    }
}

/// The units that a schedule unlocks in the year from `now`, where that can
/// be computed: nothing for a schedule without an end or with an end that
/// has passed; what unlocks within the year where the schedule runs for a
/// year or longer; else what is still locked, at the yearly rate at which
/// it unlocks until the end.
pub open spec fn annual_payout(curve: CurveModel, now: u64) -> Option<Decimal> {
    match curve.last_time() {
        None => Some(Decimal { atomics: 0 }),
        Some(last) => if last <= now {
            Some(Decimal { atomics: 0 })
        } else if last - now >= SECONDS_PER_YEAR {
            if curve.value(now) is Err || curve.value((now + SECONDS_PER_YEAR) as u64) is Err {
                None
            } else {
                let freed = curve.locked(now as int) - curve.locked(now + SECONDS_PER_YEAR);
                if freed * DECIMAL_FRACTIONAL > u128::MAX {
                    None
                } else {
                    Some(Decimal { atomics: (freed * DECIMAL_FRACTIONAL) as u128 })
                }
            }
        } else {
            if curve.value(now) is Err || curve.value(last) is Err {
                None
            } else {
                let freed = curve.locked(now as int) - curve.locked(last as int);
                if freed * SECONDS_PER_YEAR > u128::MAX {
                    None
                } else {
                    decimal_of(
                        mul_div_floor_spec(
                            freed * SECONDS_PER_YEAR,
                            DECIMAL_FRACTIONAL as int,
                            last - now,
                        ),
                    )
                }
            }
        },
    }
}

/// The units that a release schedule unlocks in the year from `now`;
/// `None` exactly when they cannot be computed in 128 bits.
pub fn annualized_payout(curve: &Curve, now: u64) -> (r: Option<Decimal>)
    requires
        curve@.falls(),
    ensures
        r == annual_payout(curve@, now),
{
    let last: u64 = match curve.end() {
        Some(v) => v,
        None => {
            return Some(Decimal::zero());
        },
    };
    if last <= now {
        return Some(Decimal::zero());
    }
    let time_diff: u64 = last - now;
    let until: u64 = if time_diff >= SECONDS_PER_YEAR {
        now + SECONDS_PER_YEAR
    } else {
        last
    };
    proof {
        law_never_rises(curve@, now as int, until as int);
        lemma_locked_nonnegative(curve@, now as int);
        lemma_locked_nonnegative(curve@, until as int);
    }
    let locked_now: u128 = match curve.value(now) {
        Ok(v) => v,
        Err(_) => {
            return None;
        },
    };
    let locked_then: u128 = match curve.value(until) {
        Ok(v) => v,
        Err(_) => {
            return None;
        },
    };
    let freed: u128 = locked_now - locked_then;
    if time_diff >= SECONDS_PER_YEAR {
        Decimal::from_units(freed)
    } else {
        match freed.checked_mul(SECONDS_PER_YEAR as u128) {
            Some(yearly) => Decimal::from_ratio(yearly, time_diff as u128),
            None => None,
        }
    }
}

/// The yearly reward of one token in a tier: the yearly payout per point
/// of power, times the multiplier of the tier, per `tokens_per_power`
/// tokens. Each step is rounded down to eighteen places.
pub open spec fn token_rate(
    annual: Decimal,
    total_power: u128,
    multiplier: Decimal,
    tokens_per_power: u128,
) -> Option<Decimal> {
    let per_power = Decimal { atomics: annual.atomics / total_power };
    match mul_div_floor_spec(
        per_power.atomics as int,
        multiplier.atomics as int,
        DECIMAL_FRACTIONAL as int,
    ) {
        None => None,
        Some(weighted) => Some(Decimal { atomics: weighted / tokens_per_power }),
    }
}

/// The yearly reward of one token in a tier; `None` exactly when it does
/// not fit.
pub fn rate_per_token(annual: Decimal, total_power: u128, multiplier: Decimal, tokens_per_power: u128)
    -> (r: Option<Decimal>)
    requires
        total_power > 0,
        tokens_per_power > 0,
    ensures
        r == token_rate(annual, total_power, multiplier, tokens_per_power),
{
    let per_power: Decimal = match annual.checked_div_int(total_power) {
        Some(v) => v,
        None => {
            return None;
        },
    };
    let weighted: Decimal = match per_power.checked_mul(multiplier) {
        Some(v) => v,
        None => {
            return None;
        },
    };
    weighted.checked_div_int(tokens_per_power)
}

} // verus!
