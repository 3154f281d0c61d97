//! Bonding power: what a bonded amount weighs in a distribution flow.

use vstd::prelude::*;
use crate::error::ContractError;
use crate::math::{mul_floor, Decimal, DECIMAL_FRACTIONAL};

verus! {

/// Unbonding period in seconds.
pub type UnbondingPeriod = u64;

/// The settings of a staking ledger, fixed when it is made.
#[derive(Debug)]
pub struct Config {
    /// The address of the token that is staked.
    pub cw20_contract: String,
    /// The bonded tokens that make one point of power at a multiplier of
    /// one.
    pub tokens_per_power: u128,
    /// A position below this amount has no power.
    pub min_bond: u128,
    /// The tiers: the unbonding periods in which tokens can be bonded.
    pub unbonding_periods: Vec<UnbondingPeriod>,
    /// The greatest number of distribution flows.
    pub max_distributions: u32,
    /// Who may create distribution flows.
    pub admin: Option<String>,
    /// Who may unbond without waiting.
    pub unbonder: Option<String>,
}

/// What a staking ledger is set up with.
#[derive(Debug)]
pub struct InstantiateMsg {
    /// address of cw20 contract token
    pub cw20_contract: String,
    pub tokens_per_power: u128,
    pub min_bond: u128,
    pub unbonding_periods: Vec<UnbondingPeriod>,
    /// the maximum number of distributions that can be created
    pub max_distributions: u32,
    /// admin can only add distributions, not change other parameters
    pub admin: Option<String>,
    /// Address of the account that can unbond without waiting
    pub unbonder: Option<String>,
}

impl InstantiateMsg {
    /// The settings that the message asks for.
    pub fn into_config(self) -> (r: Config)
        ensures
            r.cw20_contract == self.cw20_contract,
            r.tokens_per_power == self.tokens_per_power,
            r.min_bond == self.min_bond,
            r.unbonding_periods == self.unbonding_periods,
            r.max_distributions == self.max_distributions,
            r.admin == self.admin,
            r.unbonder == self.unbonder,
    {
        Config {
            cw20_contract: self.cw20_contract,
            tokens_per_power: self.tokens_per_power,
            min_bond: self.min_bond,
            unbonding_periods: self.unbonding_periods,
            max_distributions: self.max_distributions,
            admin: self.admin,
            unbonder: self.unbonder,
        }
    }
}

/// The bonded amount weighted by the multiplier, rounded down.
pub open spec fn weighted_stake(stake: int, multiplier: Decimal) -> int {
    stake * multiplier.atomics / (DECIMAL_FRACTIONAL as int)
}

/// The power of one position: nothing below the minimum bond; from there on
/// the weighted amount in units of `tokens_per_power`, rounded down.
pub open spec fn tier_power(tokens_per_power: int, min_bond: int, stake: int, multiplier: Decimal)
    -> int {
    if stake < min_bond {
        0
    } else {
        weighted_stake(stake, multiplier) / tokens_per_power
    }
}

/// What [`calc_power`] returns.
pub open spec fn tier_power_result(
    tokens_per_power: int,
    min_bond: int,
    stake: int,
    multiplier: Decimal,
) -> Result<u128, ContractError> {
    if stake < min_bond {
        Ok(0)
    } else if weighted_stake(stake, multiplier) > u128::MAX {
        Err(ContractError::Overflow {  })
    } else if tokens_per_power == 0 {
        Err(ContractError::DivideByZero {  })
    } else {
        Ok(tier_power(tokens_per_power, min_bond, stake, multiplier) as u128)
    }
}

/// The power of a position of `stake` tokens in a tier with the given
/// multiplier: zero below the minimum bond.
///
/// Fails with an overflow exactly when the position counts and its weighted
/// amount does not fit into 128 bits; else with a division by zero exactly
/// when the position counts and `tokens_per_power` is zero.
pub fn calc_power(cfg: &Config, stake: u128, multiplier: Decimal) -> (r: Result<
    u128,
    ContractError,
>)
    ensures
        r == tier_power_result(
            cfg.tokens_per_power as int,
            cfg.min_bond as int,
            stake as int,
            multiplier,
        ),
{
    if stake < cfg.min_bond {
        return Ok(0);
    }
    proof {
        assert(stake * multiplier.atomics >= 0) by (nonlinear_arith)
            requires
                stake >= 0,
                multiplier.atomics >= 0,
        ;
    }
    let weighted: u128 = match mul_floor(stake, multiplier) {
        Some(v) => v,
        None => {
            return Err(ContractError::Overflow {  });
        },
    };
    if cfg.tokens_per_power == 0 {
        return Err(ContractError::DivideByZero {  });
    }
    Ok(weighted / cfg.tokens_per_power)
}

/// The power of a staker in a flow: the sum of the powers of the staker's
/// positions, each in its tier.
pub open spec fn power_of(
    tokens_per_power: int,
    min_bond: int,
    stakes: Seq<u128>,
    multipliers: Seq<Decimal>,
) -> int
    decreases stakes.len(),
{
    if stakes.len() == 0 || multipliers.len() != stakes.len() {
        0
    } else {
        power_of(tokens_per_power, min_bond, stakes.drop_last(), multipliers.drop_last())
            + tier_power(tokens_per_power, min_bond, stakes.last() as int, multipliers.last())
    }
}

/// The power of a staker in a flow cannot be computed in 128 bits: a
/// position's weighted amount, or the sum, does not fit.
pub open spec fn power_overflows(
    tokens_per_power: int,
    min_bond: int,
    stakes: Seq<u128>,
    multipliers: Seq<Decimal>,
) -> bool
    decreases stakes.len(),
{
    if stakes.len() == 0 || multipliers.len() != stakes.len() {
        false
    } else {
        ||| power_overflows(tokens_per_power, min_bond, stakes.drop_last(), multipliers.drop_last())
        ||| tier_power_result(
            tokens_per_power,
            min_bond,
            stakes.last() as int,
            multipliers.last(),
        ) is Err
        ||| power_of(tokens_per_power, min_bond, stakes, multipliers) > u128::MAX
    }
}

/// The power of a position is never negative.
pub proof fn lemma_tier_power_nonnegative(
    tokens_per_power: int,
    min_bond: int,
    stake: int,
    multiplier: Decimal,
)
    requires
        tokens_per_power > 0,
        stake >= 0,
    ensures
        tier_power(tokens_per_power, min_bond, stake, multiplier) >= 0,
{
    let a = multiplier.atomics as int;
    let f = DECIMAL_FRACTIONAL as int;
    assert(stake * a >= 0) by (nonlinear_arith)
        requires
            stake >= 0,
            a >= 0,
    ;
    assert((stake * a) / f >= 0) by (nonlinear_arith)
        requires
            stake * a >= 0,
            f > 0,
    ;
    let w = (stake * a) / f;
    assert(w / tokens_per_power >= 0) by (nonlinear_arith)
        requires
            w >= 0,
            tokens_per_power > 0,
    ;
}

/// The power of a staker is never negative.
pub proof fn lemma_power_nonnegative(
    tokens_per_power: int,
    min_bond: int,
    stakes: Seq<u128>,
    multipliers: Seq<Decimal>,
)
    requires
        tokens_per_power > 0,
    ensures
        power_of(tokens_per_power, min_bond, stakes, multipliers) >= 0,
    decreases stakes.len(),
{
    if stakes.len() > 0 && multipliers.len() == stakes.len() {
        lemma_power_nonnegative(
            tokens_per_power,
            min_bond,
            stakes.drop_last(),
            multipliers.drop_last(),
        );
        lemma_tier_power_nonnegative(
            tokens_per_power,
            min_bond,
            stakes.last() as int,
            multipliers.last(),
        );
    }
}

/// The power of a staker with the given positions in a flow with the given
/// multipliers, one per tier.
///
/// Fails with an overflow exactly when the power cannot be computed in 128
/// bits.
pub fn rewards_power(cfg: &Config, stakes: &Vec<u128>, multipliers: &Vec<Decimal>) -> (r: Result<
    u128,
    ContractError,
>)
    requires
        cfg.tokens_per_power > 0,
        stakes@.len() == multipliers@.len(),
    ensures
        r is Ok <==> !power_overflows(
            cfg.tokens_per_power as int,
            cfg.min_bond as int,
            stakes@,
            multipliers@,
        ),
        r is Ok ==> r.unwrap() == power_of(
            cfg.tokens_per_power as int,
            cfg.min_bond as int,
            stakes@,
            multipliers@,
        ),
        r is Err ==> r == Err::<u128, ContractError>(ContractError::Overflow {  }),
{
    let n: usize = stakes.len();
    let mut total: u128 = 0;
    let mut i: usize = 0;
    let ghost tpp = cfg.tokens_per_power as int;
    let ghost mb = cfg.min_bond as int;
    while i < n
        invariant
            n == stakes@.len(),
            n == multipliers@.len(),
            0 <= i <= n,
            tpp == cfg.tokens_per_power,
            mb == cfg.min_bond,
            tpp > 0,
            !power_overflows(tpp, mb, stakes@.take(i as int), multipliers@.take(i as int)),
            total == power_of(tpp, mb, stakes@.take(i as int), multipliers@.take(i as int)),
        decreases n - i,
    {
        proof {
            let s1 = stakes@.take(i + 1);
            let m1 = multipliers@.take(i + 1);
            assert(s1.drop_last() == stakes@.take(i as int));
            assert(m1.drop_last() == multipliers@.take(i as int));
            assert(s1.last() == stakes@[i as int]);
            assert(m1.last() == multipliers@[i as int]);
            lemma_tier_power_nonnegative(tpp, mb, stakes@[i as int] as int, multipliers@[i as int]);
            if power_overflows(tpp, mb, s1, m1) {
                lemma_overflow_stays(tpp, mb, stakes@, multipliers@, i + 1);
            }
        }
        let part: u128 = match calc_power(cfg, stakes[i], multipliers[i]) {
            Ok(v) => v,
            Err(_) => {
                return Err(ContractError::Overflow {  });
            },
        };
        total = match total.checked_add(part) {
            Some(v) => v,
            None => {
                return Err(ContractError::Overflow {  });
            },
        };
        i = i + 1;
    }
    assert(stakes@.take(n as int) == stakes@);
    assert(multipliers@.take(n as int) == multipliers@);
    Ok(total)
}

/// Where the power of the first positions cannot be computed, the power of
/// all cannot be.
pub proof fn lemma_overflow_stays(
    tokens_per_power: int,
    min_bond: int,
    stakes: Seq<u128>,
    multipliers: Seq<Decimal>,
    k: int,
)
    requires
        tokens_per_power > 0,
        stakes.len() == multipliers.len(),
        0 <= k <= stakes.len(),
        power_overflows(tokens_per_power, min_bond, stakes.take(k), multipliers.take(k)),
    ensures
        power_overflows(tokens_per_power, min_bond, stakes, multipliers),
    decreases stakes.len() - k,
{
    if k < stakes.len() {
        let s1 = stakes.take(k + 1);
        let m1 = multipliers.take(k + 1);
        assert(s1.drop_last() == stakes.take(k));
        assert(m1.drop_last() == multipliers.take(k));
        lemma_overflow_stays(tokens_per_power, min_bond, stakes, multipliers, k + 1);
    } else {
        assert(stakes.take(k) == stakes);
        assert(multipliers.take(k) == multipliers);
    }
}

} // verus!
