//! The adapter between a gauge and the staking ledgers of the pools: it
//! turns the weights that a vote gave the pools into the fundings that send
//! each pool its share of the epoch's rewards.

use vstd::prelude::*;
use crate::asset::{Asset, AssetInfoValidated, AssetModel, AssetValidated};
use crate::bank::Coin;
use crate::curve::{Curve, CurveError, CurveModel};
use crate::error::ContractError;
use crate::math::{mul_floor, Decimal};
use crate::scalable_curve::{share, ScalableCurve, ScalableModel};
use crate::text::same_text;

verus! {

/// The settings of the adapter.
#[derive(Debug)]
pub struct Config {
    /// Address of the factory contract.
    pub factory: String,
    /// Owner of the creator (instantiator of the factory).
    pub owner: String,
    /// The asset to send to the voted-for lp staking contracts every epoch.
    pub rewards_asset: AssetValidated,
    /// The schedule of an epoch's rewards, in shares of the amount.
    pub distribution_curve: ScalableCurve,
}

/// What the adapter is set up with.
#[derive(Debug)]
pub struct InstantiateMsg {
    /// Address of the factory contract.
    pub factory: String,
    /// Owner of the creator.
    pub owner: String,
    /// The asset and the amount to send every epoch.
    pub rewards_asset: Asset,
    /// The seconds of an epoch.
    pub epoch_length: u64,
}

/// The settings of an adapter that is set up with `msg`: the rewards of an
/// epoch are all locked at its start, and unlock evenly until its end.
pub fn instantiate(msg: InstantiateMsg) -> (r: Config)
    ensures
        r.factory == msg.factory,
        r.owner == msg.owner,
        r.rewards_asset@ == (msg.rewards_asset.info@, msg.rewards_asset.amount),
        r.distribution_curve@ == ScalableModel::ScalableLinear(
            crate::scalable_curve::ScalableLinear {
                min_x: 0,
                min_y: Decimal { atomics: 1_000_000_000_000_000_000 },
                max_x: msg.epoch_length,
                max_y: Decimal { atomics: 0 },
            },
        ),
{
    Config {
        rewards_asset: msg.rewards_asset.validate(),
        factory: msg.factory,
        owner: msg.owner,
        distribution_curve: ScalableCurve::linear((0, 100), (msg.epoch_length, 0)),
    }
}

/// A funding of a staking contract.
#[derive(Debug, PartialEq, Eq)]
pub enum DistributeMsg {
    /// Tokens are sent through their contract, with the order to fund the
    /// flow that pays them.
    Send { token: String, contract: String, amount: u128, curve: Curve },
    /// Coins are attached to the order to fund the flow that pays them.
    FundDistribution { contract: String, curve: Curve, funds: Coin },
}

/// What a [`DistributeMsg`] says.
pub ghost enum DistributeModel {
    Send { token: Seq<char>, contract: Seq<char>, amount: u128, curve: CurveModel },
    FundDistribution { contract: Seq<char>, curve: CurveModel, denom: Seq<char>, amount: u128 },
}

impl View for DistributeMsg {
    type V = DistributeModel;

    open spec fn view(&self) -> DistributeModel {
        match self {
            DistributeMsg::Send { token, contract, amount, curve } => DistributeModel::Send {
                token: token@,
                contract: contract@,
                amount: *amount,
                curve: curve@,
            },
            DistributeMsg::FundDistribution {
                contract,
                curve,
                funds,
            } => DistributeModel::FundDistribution {
                contract: contract@,
                curve: curve@,
                denom: funds.denom@,
                amount: funds.amount,
            },
        }
    }
}

/// The funding that sends `amount` of `asset` to `staking_contract` on the
/// schedule `curve`; nothing for an amount of zero.
pub open spec fn distribution(
    asset: AssetModel,
    amount: u128,
    staking_contract: Seq<char>,
    curve: ScalableModel,
) -> Option<DistributeModel> {
    if amount == 0 {
        None
    } else {
        match asset {
            AssetModel::Token(token) => Some(
                DistributeModel::Send {
                    token,
                    contract: staking_contract,
                    amount,
                    curve: curve.scaled(amount),
                },
            ),
            AssetModel::Native(denom) => Some(
                DistributeModel::FundDistribution {
                    contract: staking_contract,
                    curve: curve.scaled(amount),
                    denom,
                    amount,
                },
            ),
        }
    }
}

/// Creates the necessary message to distribute the given asset to the given
/// staking contract: none for an amount of zero.
///
/// Fails with an overflow exactly when there is an amount and a share of it
/// along the curve does not fit into 128 bits.
pub fn create_distribute_msgs(asset: AssetValidated, staking_contract: String, curve: ScalableCurve)
    -> (r: Result<Option<DistributeMsg>, CurveError>)
    ensures
        r is Err <==> asset.amount != 0 && curve@.scale_overflows(asset.amount),
        r matches Err(e) ==> e == CurveError::Overflow,
        r matches Ok(msg) ==> msg_view(msg) == distribution(
            asset.info@,
            asset.amount,
            staking_contract@,
            curve@,
        ),
{
    if asset.amount == 0 {
        return Ok(None);
    }
    let scaled: Curve = match curve.scale(asset.amount) {
        Ok(v) => v,
        Err(e) => {
            return Err(e);
        },
    };
    match asset.info {
        AssetInfoValidated::Token(token) => Ok(
            Some(
                DistributeMsg::Send {
                    token,
                    contract: staking_contract,
                    amount: asset.amount,
                    curve: scaled,
                },
            ),
        ),
        AssetInfoValidated::Native(denom) => Ok(
            Some(
                DistributeMsg::FundDistribution {
                    contract: staking_contract,
                    curve: scaled,
                    funds: Coin { denom, amount: asset.amount },
                },
            ),
        ),
    }
}

/// An optional message as what it says.
pub open spec fn msg_view(msg: Option<DistributeMsg>) -> Option<DistributeModel> {
    match msg {
        Some(m) => Some(m@),
        None => None,
    }
}

/// The votes as pairs of option and weight.
pub open spec fn votes_view(selected: Seq<(String, Decimal)>) -> Seq<(Seq<char>, Decimal)> {
    Seq::new(selected.len(), |i: int| (selected[i].0@, selected[i].1))
}

/// The messages as what they say.
pub open spec fn msgs_view(msgs: Seq<DistributeMsg>) -> Seq<DistributeModel> {
    Seq::new(msgs.len(), |i: int| msgs[i]@)
}

/// The fundings for the first `k` votes: for each vote with a share of the
/// rewards above zero, the funding that sends the share to the option, in
/// the order of the votes.
pub open spec fn samples(
    asset: AssetModel,
    amount: u128,
    curve: ScalableModel,
    selected: Seq<(Seq<char>, Decimal)>,
    k: int,
) -> Seq<DistributeModel>
    decreases k,
{
    if k <= 0 {
        Seq::empty()
    } else {
        let before = samples(asset, amount, curve, selected, k - 1);
        match distribution(
            asset,
            share(amount, selected[k - 1].1) as u128,
            selected[k - 1].0,
            curve,
        ) {
            Some(msg) => before.push(msg),
            None => before,
        }
    }
}

/// The fundings for some vote cannot be computed: the vote's share of the
/// rewards, or a share of that along the curve, does not fit into 128
/// bits.
pub open spec fn samples_overflow(
    amount: u128,
    curve: ScalableModel,
    selected: Seq<(Seq<char>, Decimal)>,
) -> bool {
    exists|i: int|
        0 <= i < selected.len() && {
            ||| share(amount, (#[trigger] selected[i]).1) > u128::MAX
            ||| share(amount, selected[i].1) != 0 && curve.scale_overflows(
                share(amount, selected[i].1) as u128,
            )
        }
}

impl Config {
    /// Sets the amount of the rewards of an epoch.
    ///
    /// Fails, and changes nothing, exactly when the sender is not the
    /// owner.
    pub fn update_rewards(&mut self, sender: &str, new_amount: u128) -> (r: Result<
        (),
        ContractError,
    >)
        ensures
            r == (if sender@ == old(self).owner@ {
                Ok::<(), ContractError>(())
            } else {
                Err(ContractError::Unauthorized {  })
            }),
            r is Err ==> *final(self) == *old(self),
            r is Ok ==> final(self).rewards_asset.amount == new_amount,
            r is Ok ==> final(self).rewards_asset.info == old(self).rewards_asset.info,
            r is Ok ==> final(self).owner == old(self).owner,
            r is Ok ==> final(self).factory == old(self).factory,
            r is Ok ==> final(self).distribution_curve == old(self).distribution_curve,
    {
        if !same_text(&sender.to_owned(), &self.owner) {
            return Err(ContractError::Unauthorized {  });
        }
        self.rewards_asset.amount = new_amount;
        Ok(())
    }

    /// The fundings that send each selected option its share of the
    /// rewards: the weight of the option times the amount, rounded down, on
    /// the adapter's schedule. Options with a share of zero get none.
    ///
    /// Fails with an overflow exactly when a share cannot be computed in
    /// 128 bits.
    pub fn sample_gauge_msgs(&self, selected: Vec<(String, Decimal)>) -> (r: Result<
        Vec<DistributeMsg>,
        CurveError,
    >)
        ensures
            r is Err <==> samples_overflow(
                self.rewards_asset.amount,
                self.distribution_curve@,
                votes_view(selected@),
            ),
            r matches Err(e) ==> e == CurveError::Overflow,
            r matches Ok(msgs) ==> msgs_view(msgs@) == samples(
                self.rewards_asset.info@,
                self.rewards_asset.amount,
                self.distribution_curve@,
                votes_view(selected@),
                selected@.len() as int,
            ),
    {
        let n: usize = selected.len();
        let mut msgs: Vec<DistributeMsg> = Vec::new();
        let mut i: usize = 0;
        let ghost asset = self.rewards_asset.info@;
        let ghost amount = self.rewards_asset.amount;
        let ghost curve = self.distribution_curve@;
        let ghost votes = votes_view(selected@);
        assert(msgs_view(msgs@) =~= samples(asset, amount, curve, votes, 0));
        while i < n
            invariant
                n == selected@.len(),
                0 <= i <= n,
                asset == self.rewards_asset.info@,
                amount == self.rewards_asset.amount,
                curve == self.distribution_curve@,
                votes == votes_view(selected@),
                msgs_view(msgs@) == samples(asset, amount, curve, votes, i as int),
                forall|k: int|
                    0 <= k < i ==> {
                        &&& share(amount, (#[trigger] votes[k]).1) <= u128::MAX
                        &&& !(share(amount, votes[k].1) != 0 && curve.scale_overflows(
                            share(amount, votes[k].1) as u128,
                        ))
                    },
            decreases n - i,
        {
            let weight: Decimal = selected[i].1;
            proof {
                assert(votes[i as int] == (selected@[i as int].0@, weight));
                assert(amount * weight.atomics >= 0) by (nonlinear_arith)
                    requires
                        amount >= 0,
                        weight.atomics >= 0,
                ;
            }
            let part: u128 = match mul_floor(self.rewards_asset.amount, weight) {
                Some(v) => v,
                None => {
                    assert(share(amount, votes[i as int].1) > u128::MAX);
                    return Err(CurveError::Overflow);
                },
            };
            let rewards = AssetValidated { info: self.rewards_asset.info.clone(), amount: part };
            match create_distribute_msgs(
                rewards,
                selected[i].0.clone(),
                self.distribution_curve.copy(),
            ) {
                Ok(Some(msg)) => {
                    let ghost before = msgs@;
                    msgs.push(msg);
                    assert(msgs_view(msgs@) =~= msgs_view(before).push(msg@));
                },
                Ok(None) => {},
                Err(e) => {
                    assert(curve.scale_overflows(share(amount, votes[i as int].1) as u128));
                    return Err(e);
                },
            }
            i = i + 1;
        }
        Ok(msgs)
    }
}

} // verus!
