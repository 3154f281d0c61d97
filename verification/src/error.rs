//! Why an operation of the staking ledger was refused.

use vstd::prelude::*;
use crate::curve::CurveError;

verus! {

/// The failures of the staking ledger. A failed operation leaves every
/// balance, accumulator and correction as it was.
#[derive(Clone, Copy, Debug, PartialEq, Eq, Structural)]
pub enum ContractError {
    /// The caller lacks the role that the operation asks for.
    Unauthorized {},
    /// The reward asset is the staking token itself.
    InvalidAsset {},
    /// The asset already has a distribution flow.
    DistributionAlreadyExists {},
    /// The configured number of distribution flows is reached.
    TooManyDistributions { max: u32 },
    /// The rewards table does not name each tier of the ledger once, in
    /// order.
    InvalidRewards {},
    /// The asset has no distribution flow.
    NoDistributionFlow {},
    /// The tier is not one of the ledger's unbonding periods.
    NoUnbondingPeriodFound { period: u64 },
    /// More is to leave a tier than is bonded there.
    InsufficientStake {},
    /// The shares of a mass delegation add up to more than was sent.
    MassDelegateTooMuch {},
    /// The sender holds less of the asset than is to be moved.
    InsufficientFunds {},
    /// The combined release schedule is not a falling curve.
    Curve { reason: CurveError },
    /// A power, an accumulator or a balance does not fit its width.
    Overflow {},
    /// A division by zero tokens per power.
    DivideByZero {},
}

} // verus!
