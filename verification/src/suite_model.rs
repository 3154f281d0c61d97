//! The staking ledger together with the custody of the assets and a clock,
//! as a mathematical object.

use vstd::prelude::*;
use crate::asset::AssetModel;
use crate::bank::BankModel;
use crate::error::ContractError;
use crate::ledger_model::{name_or, LedgerModel};
use crate::math::Decimal;

verus! {

/// Holdings, ledger and clock.
pub ghost struct SuiteModel {
    pub bank: BankModel,
    pub ledger: LedgerModel,
    pub now: u64,
    /// The address under which the ledger holds assets.
    pub stake_contract: Seq<char>,
    /// The address of the staking token.
    pub token_contract: Seq<char>,
    /// The number of contracts set up so far.
    pub contracts: u64,
}

impl SuiteModel {
    /// The address of the next contract to be set up.
    pub open spec fn next_contract(self) -> Seq<char> {
        "contract"@ + crate::text::decimal_text(self.contracts as nat)
    }

    /// The staking token as an asset.
    pub open spec fn staking_token(self) -> AssetModel {
        AssetModel::Token(self.token_contract)
    }

    /// All is sound: the ledger is, the holdings are, and the ledger's
    /// staking token is the token of the suite.
    pub open spec fn inv(self) -> bool {
        &&& self.ledger.inv()
        &&& self.bank.wf()
        &&& self.ledger.staking_token == self.token_contract
    }

    /// The outcome of moving `amount` of `asset` from `from` into the
    /// ledger's custody.
    pub open spec fn take(self, asset: AssetModel, from: Seq<char>, amount: u128) -> Result<
        SuiteModel,
        ContractError,
    > {
        match self.bank.transfer_error(asset, from, self.stake_contract, amount) {
            Some(e) => Err(e),
            None => Ok(
                SuiteModel {
                    bank: self.bank.transfer(asset, from, self.stake_contract, amount),
                    ..self
                },
            ),
        }
    }

    /// The outcome of `sender` bonding `amount` staking tokens for
    /// `period` in the name of `staker`: the tokens go into custody, and
    /// the ledger bonds them.
    pub open spec fn delegate(self, sender: Seq<char>, staker: Seq<char>, amount: u128, period: u64)
        -> Result<SuiteModel, ContractError> {
        match self.take(self.staking_token(), sender, amount) {
            Err(e) => Err(e),
            Ok(taken) => match taken.ledger.delegate_error(staker, period, amount, self.now) {
                Some(e) => Err(e),
                None => Ok(
                    SuiteModel {
                        ledger: taken.ledger.delegate(staker, period, amount, self.now),
                        ..taken
                    },
                ),
            },
        }
    }

    /// The outcome of `sender` handing over `amount` staking tokens, of
    /// which each address in `shares` gets its share bonded for `period`.
    pub open spec fn mass_delegate(
        self,
        sender: Seq<char>,
        amount: u128,
        period: u64,
        shares: Seq<(Seq<char>, u128)>,
    ) -> Result<SuiteModel, ContractError> {
        match self.take(self.staking_token(), sender, amount) {
            Err(e) => Err(e),
            Ok(taken) => match taken.ledger.mass_delegate(amount, period, shares, self.now) {
                Err(e) => Err(e),
                Ok(ledger) => Ok(SuiteModel { ledger, ..taken }),
            },
        }
    }

    /// The outcome of `sender` taking `amount` tokens out of the tier of
    /// `period`. The tokens stay in custody.
    pub open spec fn unbond(self, sender: Seq<char>, amount: u128, period: u64) -> Result<
        SuiteModel,
        ContractError,
    > {
        match self.ledger.unbond_error(sender, period, amount, self.now) {
            Some(e) => Err(e),
            None => Ok(
                SuiteModel { ledger: self.ledger.unbond(sender, period, amount, self.now), ..self },
            ),
        }
    }

    /// The outcome of `sender` moving `amount` tokens from the tier of
    /// `from` to the tier of `to`.
    pub open spec fn rebond(self, sender: Seq<char>, amount: u128, from: u64, to: u64) -> Result<
        SuiteModel,
        ContractError,
    > {
        match self.ledger.rebond_error(sender, amount, from, to, self.now) {
            Some(e) => Err(e),
            None => Ok(
                SuiteModel {
                    ledger: self.ledger.rebond(sender, amount, from, to, self.now),
                    ..self
                },
            ),
        }
    }

    /// The outcome of creating a distribution flow.
    pub open spec fn create_distribution_flow(
        self,
        sender: Seq<char>,
        manager: Seq<char>,
        asset: AssetModel,
        rewards: Seq<(u64, Decimal)>,
    ) -> Result<SuiteModel, ContractError> {
        match self.ledger.create_flow_error(sender, asset, rewards) {
            Some(e) => Err(e),
            None => Ok(
                SuiteModel { ledger: self.ledger.create_flow(manager, asset, rewards), ..self },
            ),
        }
    }

    /// The outcome of a transfer of `funds` from `payer` into custody: the
    /// flow that pays the asset, if there is one, has the funds at once.
    pub open spec fn deposit(self, payer: Seq<char>, funds: (AssetModel, u128)) -> Result<
        SuiteModel,
        ContractError,
    > {
        match self.take(funds.0, payer, funds.1) {
            Err(e) => Err(e),
            Ok(taken) => if taken.ledger.flow(funds.0) is None {
                Ok(taken)
            } else {
                match taken.ledger.deposit_error(funds.0, funds.1) {
                    Some(e) => Err(e),
                    None => Ok(
                        SuiteModel { ledger: taken.ledger.deposit(funds.0, funds.1), ..taken },
                    ),
                }
            },
        }
    }

    /// The outcome of a release in every flow.
    pub open spec fn distribute(self) -> Result<SuiteModel, ContractError> {
        if self.ledger.distribute_fails(self.now) {
            Err(ContractError::Overflow {  })
        } else {
            Ok(SuiteModel { ledger: self.ledger.distribute(self.now), ..self })
        }
    }

    /// The outcome of an optional transfer of funds into custody, followed
    /// by a release in every flow.
    pub open spec fn distribute_funds(self, payer: Seq<char>, funds: Option<(AssetModel, u128)>)
        -> Result<SuiteModel, ContractError> {
        match funds {
            None => self.distribute(),
            Some(f) => match self.deposit(payer, f) {
                Err(e) => Err(e),
                Ok(paid) => paid.distribute(),
            },
        }
    }

    /// The holdings after the first `k` of `rewards` were paid out of
    /// custody to `receiver`, or the error of the first that cannot be
    /// paid.
    pub open spec fn pay(self, receiver: Seq<char>, rewards: Seq<(AssetModel, u128)>, k: int)
        -> Result<BankModel, ContractError>
        decreases k,
    {
        if k <= 0 {
            Ok(self.bank)
        } else {
            match self.pay(receiver, rewards, k - 1) {
                Err(e) => Err(e),
                Ok(bank) => match bank.transfer_error(
                    rewards[k - 1].0,
                    self.stake_contract,
                    receiver,
                    rewards[k - 1].1,
                ) {
                    Some(e) => Err(e),
                    None => Ok(
                        bank.transfer(
                            rewards[k - 1].0,
                            self.stake_contract,
                            receiver,
                            rewards[k - 1].1,
                        ),
                    ),
                },
            }
        }
    }

    /// The outcome of `sender` withdrawing the rewards of `owner`, or its
    /// own, to `receiver`, or to the address that the owner has chosen: the
    /// ledger settles the owner's accounts, and custody pays what they
    /// yield.
    pub open spec fn withdraw_funds(
        self,
        sender: Seq<char>,
        owner: Option<Seq<char>>,
        receiver: Option<Seq<char>>,
    ) -> Result<SuiteModel, ContractError> {
        let owner = name_or(owner, sender);
        let to = name_or(receiver, self.ledger.delegated(owner));
        match self.ledger.withdraw_error(sender, owner, self.now) {
            Some(e) => Err(e),
            None => {
                let rewards = self.ledger.rewards_paid(owner, self.now);
                match self.pay(to, rewards, rewards.len() as int) {
                    Err(e) => Err(e),
                    Ok(bank) => Ok(
                        SuiteModel {
                            bank,
                            ledger: self.ledger.withdraw_rewards(owner, self.now),
                            ..self
                        },
                    ),
                }
            },
        }
    }
}

/// A payout that has failed at one reward fails as a whole, with the same
/// error.
pub proof fn lemma_pay_stays_failed(
    suite: SuiteModel,
    receiver: Seq<char>,
    rewards: Seq<(AssetModel, u128)>,
    k: int,
    n: int,
)
    requires
        0 <= k <= n,
        suite.pay(receiver, rewards, k) is Err,
    ensures
        suite.pay(receiver, rewards, n) == suite.pay(receiver, rewards, k),
    decreases n - k,
{
    if k < n {
        lemma_pay_stays_failed(suite, receiver, rewards, k, n - 1);
    }
}

} // verus!
