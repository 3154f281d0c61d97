//! The staking ledger in its surroundings: a bank that holds the assets, a
//! clock, and the calls that move assets and drive the ledger together.

use vstd::prelude::*;
use crate::asset::{AssetInfo, AssetInfoValidated, AssetModel, AssetValidated};
use crate::bank::{Bank, BankModel, Coin, Cw20Coin};
use crate::curve::{Curve, CurveModel, SaturatingLinear};
use crate::error::ContractError;
use crate::apr::AnnualizedReward;
use crate::ledger::{powers_view, rewards_view, rows_view, shares_view, Ledger, Withdrawal};
use crate::ledger_model::name_or;
use crate::math::Decimal;
use crate::stake::{Config, InstantiateMsg, UnbondingPeriod};
use crate::suite_model::{lemma_pay_stays_failed, SuiteModel};
use crate::text::{decimal_text, numbered, text_view};

verus! {

/// Seven days in seconds: the unbonding period of a ledger that is given no
/// other.
pub const SEVEN_DAYS: u64 = 604800;

/// The time at which a suite starts, in seconds.
pub const GENESIS_TIME: u64 = 1571797419;

/// The power `amount` in the flow that pays the coin `juno`, as a list of
/// powers by asset.
pub fn juno_power(amount: u128) -> (r: Vec<(AssetInfoValidated, u128)>)
    ensures
        powers_view(r@) == seq![(AssetModel::Native("juno"@), amount)],
{
    let mut r: Vec<(AssetInfoValidated, u128)> = Vec::new();
    r.push((AssetInfoValidated::Native("juno".to_owned()), amount));
    assert(powers_view(r@) =~= seq![(AssetModel::Native("juno"@), amount)]);
    r
}

/// `amount` of the coin `juno`.
pub fn juno(amount: u128) -> (r: AssetValidated)
    ensures
        r@ == (AssetModel::Native("juno"@), amount),
{
    AssetInfoValidated::Native("juno".to_owned()).with_balance(amount)
}

/// `amount` of the coin `denom`.
pub fn native_token(denom: String, amount: u128) -> (r: AssetValidated)
    ensures
        r@ == (AssetModel::Native(denom@), amount),
{
    AssetInfoValidated::Native(denom).with_balance(amount)
}

/// The holdings after the first `k` of `credits` were given to their
/// holders; nothing where a balance would overflow.
pub open spec fn credited(bank: BankModel, credits: Seq<(AssetModel, Seq<char>, u128)>, k: int)
    -> Option<BankModel>
    decreases k,
{
    if k <= 0 {
        Some(bank)
    } else {
        match credited(bank, credits, k - 1) {
            None => None,
            Some(b) => if b.balance(credits[k - 1].0, credits[k - 1].1) + credits[k - 1].2
                > u128::MAX {
                None
            } else {
                Some(
                    b.set(
                        credits[k - 1].0,
                        credits[k - 1].1,
                        (b.balance(credits[k - 1].0, credits[k - 1].1) + credits[k - 1].2) as u128,
                    ),
                )
            },
        }
    }
}

/// What is needed to set a suite up.
#[derive(Debug)]
pub struct SuiteBuilder {
    pub cw20_contract: String,
    pub tokens_per_power: u128,
    pub min_bond: u128,
    pub unbonding_periods: Vec<UnbondingPeriod>,
    pub admin: Option<String>,
    pub initial_balances: Vec<Cw20Coin>,
    pub native_balances: Vec<(String, Coin)>,
}

/// The bank, the ledger and the clock.
#[derive(Debug)]
pub struct Suite {
    bank: Bank,
    ledger: Ledger,
    stake_contract: String,
    token_contract: String,
    time: u64,
    contracts: u64,
}

impl SuiteBuilder {
    /// The native coins to give out, as credits.
    pub open spec fn native_credits(&self) -> Seq<(AssetModel, Seq<char>, u128)> {
        Seq::new(
            self.native_balances@.len(),
            |i: int|
                (
                    AssetModel::Native(self.native_balances@[i].1.denom@),
                    self.native_balances@[i].0@,
                    self.native_balances@[i].1.amount,
                ),
        )
    }

    /// The staking tokens to give out, as credits of the token at
    /// `address`.
    pub open spec fn token_credits(&self, address: Seq<char>) -> Seq<(AssetModel, Seq<char>, u128)> {
        Seq::new(
            self.initial_balances@.len(),
            |i: int|
                (
                    AssetModel::Token(address),
                    self.initial_balances@[i].address@,
                    self.initial_balances@[i].amount,
                ),
        )
    }

    /// A builder with the usual settings: a thousand tokens per point of
    /// power, a minimum bond of five thousand, one tier of seven days, no
    /// admin and no balances.
    pub fn new() -> (r: SuiteBuilder)
        ensures
            r.tokens_per_power == 1000,
            r.min_bond == 5000,
            r.unbonding_periods@ == seq![SEVEN_DAYS],
            r.admin is None,
            r.initial_balances@.len() == 0,
            r.native_balances@.len() == 0,
    {
        let mut unbonding_periods: Vec<u64> = Vec::new();
        unbonding_periods.push(SEVEN_DAYS);
        SuiteBuilder {
            cw20_contract: "".to_owned(),
            tokens_per_power: 1000,
            min_bond: 5000,
            unbonding_periods,
            admin: None,
            initial_balances: Vec::new(),
            native_balances: Vec::new(),
        }
    }

    /// Adds native coins of `denom` for the given addresses.
    pub fn with_native_balances(self, denom: &str, balances: Vec<(&str, u128)>) -> (r: Self)
        ensures
            r.cw20_contract == self.cw20_contract,
            r.native_balances@.len() == self.native_balances@.len() + balances@.len(),
            forall|i: int|
                0 <= i < self.native_balances@.len() ==> r.native_balances@[i]
                    == self.native_balances@[i],
            forall|i: int|
                0 <= i < balances@.len() ==> {
                    &&& (#[trigger] r.native_balances@[self.native_balances@.len() + i]).0@
                        == balances@[i].0@
                    &&& r.native_balances@[self.native_balances@.len() + i].1.denom@ == denom@
                    &&& r.native_balances@[self.native_balances@.len() + i].1.amount
                        == balances@[i].1
                },
            r.tokens_per_power == self.tokens_per_power,
            r.min_bond == self.min_bond,
            r.unbonding_periods == self.unbonding_periods,
            r.admin == self.admin,
            r.initial_balances == self.initial_balances,
    {
        let n: usize = balances.len();
        let mut native_balances: Vec<(String, Coin)> = self.native_balances;
        let ghost before = native_balances@;
        let mut i: usize = 0;
        while i < n
            invariant
                n == balances@.len(),
                0 <= i <= n,
                native_balances@.len() == before.len() + i,
                forall|j: int| 0 <= j < before.len() ==> native_balances@[j] == before[j],
                forall|j: int|
                    0 <= j < i ==> {
                        &&& (#[trigger] native_balances@[before.len() + j]).0@ == balances@[j].0@
                        &&& native_balances@[before.len() + j].1.denom@ == denom@
                        &&& native_balances@[before.len() + j].1.amount == balances@[j].1
                    },
            decreases n - i,
        {
            let entry: (&str, u128) = balances[i];
            native_balances.push(
                (entry.0.to_owned(), Coin { denom: denom.to_owned(), amount: entry.1 }),
            );
            i = i + 1;
        }
        SuiteBuilder {
            cw20_contract: self.cw20_contract,
            tokens_per_power: self.tokens_per_power,
            min_bond: self.min_bond,
            unbonding_periods: self.unbonding_periods,
            admin: self.admin,
            initial_balances: self.initial_balances,
            native_balances,
        }
    }

    /// Sets the staking tokens that the given addresses start with.
    pub fn with_initial_balances(self, balances: Vec<(&str, u128)>) -> (r: Self)
        ensures
            r.cw20_contract == self.cw20_contract,
            r.initial_balances@.len() == balances@.len(),
            forall|i: int|
                0 <= i < balances@.len() ==> (#[trigger] r.initial_balances@[i]).address@
                    == balances@[i].0@ && r.initial_balances@[i].amount == balances@[i].1,
            r.tokens_per_power == self.tokens_per_power,
            r.min_bond == self.min_bond,
            r.unbonding_periods == self.unbonding_periods,
            r.admin == self.admin,
            r.native_balances == self.native_balances,
    {
        let n: usize = balances.len();
        let mut initial_balances: Vec<Cw20Coin> = Vec::new();
        let mut i: usize = 0;
        while i < n
            invariant
                n == balances@.len(),
                0 <= i <= n,
                initial_balances@.len() == i,
                forall|j: int|
                    0 <= j < i ==> (#[trigger] initial_balances@[j]).address@ == balances@[j].0@
                        && initial_balances@[j].amount == balances@[j].1,
            decreases n - i,
        {
            let entry: (&str, u128) = balances[i];
            initial_balances.push(Cw20Coin { address: entry.0.to_owned(), amount: entry.1 });
            i = i + 1;
        }
        SuiteBuilder {
            cw20_contract: self.cw20_contract,
            tokens_per_power: self.tokens_per_power,
            min_bond: self.min_bond,
            unbonding_periods: self.unbonding_periods,
            admin: self.admin,
            initial_balances,
            native_balances: self.native_balances,
        }
    }

    /// Sets the minimum bond.
    pub fn with_min_bond(self, min_bond: u128) -> (r: Self)
        ensures
            r.cw20_contract == self.cw20_contract,
            r.min_bond == min_bond,
            r.tokens_per_power == self.tokens_per_power,
            r.unbonding_periods == self.unbonding_periods,
            r.admin == self.admin,
            r.initial_balances == self.initial_balances,
            r.native_balances == self.native_balances,
    {
        SuiteBuilder {
            cw20_contract: self.cw20_contract,
            tokens_per_power: self.tokens_per_power,
            min_bond,
            unbonding_periods: self.unbonding_periods,
            admin: self.admin,
            initial_balances: self.initial_balances,
            native_balances: self.native_balances,
        }
    }

    /// Sets the admin.
    pub fn with_admin(self, admin: &str) -> (r: Self)
        ensures
            r.cw20_contract == self.cw20_contract,
            text_view(r.admin) == Some(admin@),
            r.tokens_per_power == self.tokens_per_power,
            r.min_bond == self.min_bond,
            r.unbonding_periods == self.unbonding_periods,
            r.initial_balances == self.initial_balances,
            r.native_balances == self.native_balances,
    {
        SuiteBuilder {
            cw20_contract: self.cw20_contract,
            tokens_per_power: self.tokens_per_power,
            min_bond: self.min_bond,
            unbonding_periods: self.unbonding_periods,
            admin: Some(admin.to_owned()),
            initial_balances: self.initial_balances,
            native_balances: self.native_balances,
        }
    }

    /// Sets the tiers.
    pub fn with_unbonding_periods(self, unbonding_periods: Vec<UnbondingPeriod>) -> (r: Self)
        ensures
            r.cw20_contract == self.cw20_contract,
            r.unbonding_periods == unbonding_periods,
            r.tokens_per_power == self.tokens_per_power,
            r.min_bond == self.min_bond,
            r.admin == self.admin,
            r.initial_balances == self.initial_balances,
            r.native_balances == self.native_balances,
    {
        SuiteBuilder {
            cw20_contract: self.cw20_contract,
            tokens_per_power: self.tokens_per_power,
            min_bond: self.min_bond,
            unbonding_periods,
            admin: self.admin,
            initial_balances: self.initial_balances,
            native_balances: self.native_balances,
        }
    }
}


impl View for Suite {
    type V = SuiteModel;

    closed spec fn view(&self) -> SuiteModel {
        SuiteModel {
            bank: self.bank@,
            ledger: self.ledger@,
            now: self.time,
            stake_contract: self.stake_contract@,
            token_contract: self.token_contract@,
            contracts: self.contracts,
        }
    }
}

impl SuiteBuilder {
    /// All that is given out at the start, as credits: the native coins,
    /// then the staking tokens.
    pub open spec fn credits(&self) -> Seq<(AssetModel, Seq<char>, u128)> {
        self.native_credits() + self.token_credits("contract0"@)
    }

    /// The suite can be built: some tokens make a point of power, and no
    /// balance overflows.
    pub open spec fn buildable(&self) -> bool {
        &&& self.tokens_per_power > 0
        &&& credited(BankModel::empty(), self.credits(), self.credits().len() as int) is Some
    }

    /// Sets the suite up: the balances are given out, the staking token
    /// lives at `contract0`, and a ledger without stakers and flows holds
    /// its assets at `contract1`. It allows for six distribution flows.
    pub fn build(self) -> (r: Suite)
        requires
            self.buildable(),
        ensures
            r.inv(),
            r@.now == GENESIS_TIME,
            r@.stake_contract == "contract1"@,
            r@.token_contract == "contract0"@,
            r@.contracts == 2,
            Some(r@.bank) == credited(
                BankModel::empty(),
                self.credits(),
                self.credits().len() as int,
            ),
            r@.ledger.stakers.len() == 0,
            r@.ledger.flows.len() == 0,
            r@.ledger.tokens_per_power == self.tokens_per_power,
            r@.ledger.min_bond == self.min_bond,
            r@.ledger.periods == self.unbonding_periods@,
            r@.ledger.max_distributions == 6,
            r@.ledger.admin == text_view(self.admin),
            r@.ledger.unbonder == None::<Seq<char>>,
    {
        let token_contract: String = "contract0".to_owned();
        let stake_contract: String = "contract1".to_owned();
        let token = AssetInfoValidated::Token(token_contract.clone());
        let ghost credits = self.credits();
        let ghost total = credits.len() as int;
        let mut bank: Bank = Bank::new();
        let n: usize = self.native_balances.len();
        let m: usize = self.initial_balances.len();
        let mut i: usize = 0;
        while i < n
            invariant
                n == self.native_balances@.len(),
                m == self.initial_balances@.len(),
                0 <= i <= n,
                credits == self.credits(),
                total == n + m,
                credited(BankModel::empty(), credits, total) is Some,
                Some(bank@) == credited(BankModel::empty(), credits, i as int),
            decreases n - i,
        {
            proof {
                lemma_credited_prefix(BankModel::empty(), credits, i + 1, total);
                assert(credits[i as int] == self.native_credits()[i as int]);
            }
            let entry: &(String, Coin) = &self.native_balances[i];
            let asset = AssetInfoValidated::Native(entry.1.denom.clone());
            let _ = bank.mint(&asset, &entry.0, entry.1.amount);
            i = i + 1;
        }
        let mut j: usize = 0;
        while j < m
            invariant
                n == self.native_balances@.len(),
                m == self.initial_balances@.len(),
                0 <= j <= m,
                credits == self.credits(),
                total == n + m,
                token@ == AssetModel::Token("contract0"@),
                credited(BankModel::empty(), credits, total) is Some,
                Some(bank@) == credited(BankModel::empty(), credits, n + j),
            decreases m - j,
        {
            proof {
                lemma_credited_prefix(BankModel::empty(), credits, n + j + 1, total);
                assert(credits[n + j] == self.token_credits("contract0"@)[j as int]);
            }
            let entry: &Cw20Coin = &self.initial_balances[j];
            let _ = bank.mint(&token, &entry.address, entry.amount);
            j = j + 1;
        }
        let config: Config = InstantiateMsg {
            cw20_contract: token_contract.clone(),
            tokens_per_power: self.tokens_per_power,
            min_bond: self.min_bond,
            unbonding_periods: self.unbonding_periods,
            max_distributions: 6,
            admin: self.admin,
            unbonder: None,
        }.into_config();
        Suite {
            bank,
            ledger: Ledger::with_config(config),
            stake_contract,
            token_contract,
            time: GENESIS_TIME,
            contracts: 2,
        }
    }
}

/// Credits that can all be given can be given up to any of them.
pub proof fn lemma_credited_prefix(
    bank: BankModel,
    credits: Seq<(AssetModel, Seq<char>, u128)>,
    k: int,
    n: int,
)
    requires
        0 <= k <= n,
        credited(bank, credits, n) is Some,
    ensures
        credited(bank, credits, k) is Some,
    decreases n - k,
{
    if k < n {
        lemma_credited_prefix(bank, credits, k, n - 1);
    }
}

impl Suite {
    /// All is sound.
    pub open spec fn inv(&self) -> bool {
        self@.inv()
    }
}


/// The outcome of an operation on a suite: on success the suite is what the
/// model says, on failure it is what it was, and the error is the model's.
pub open spec fn follows(
    outcome: Result<SuiteModel, ContractError>,
    before: SuiteModel,
    after: SuiteModel,
    r: Result<(), ContractError>,
) -> bool {
    match outcome {
        Ok(suite) => r is Ok && after == suite,
        Err(e) => r == Err::<(), ContractError>(e) && after == before,
    }
}

/// The shares of a mass delegation, given as a slice, as pairs of address
/// and amount.
pub open spec fn slice_shares(shares: Seq<(&str, u128)>) -> Seq<(Seq<char>, u128)> {
    Seq::new(shares.len(), |i: int| (shares[i].0@, shares[i].1))
}

/// An optional name as optional text.
pub open spec fn name_view(name: Option<&str>) -> Option<Seq<char>> {
    match name {
        Some(n) => Some(n@),
        None => None,
    }
}

/// Optional funds as an optional pair of asset and amount.
pub open spec fn funds_view(funds: Option<AssetValidated>) -> Option<(AssetModel, u128)> {
    match funds {
        Some(f) => Some(f@),
        None => None,
    }
}

impl Suite {
    /// The address under which the ledger holds assets.
    pub fn stake_contract(&self) -> (r: String)
        ensures
            r@ == self@.stake_contract,
    {
        self.stake_contract.clone()
    }

    /// The address of the staking token.
    pub fn token_contract(&self) -> (r: String)
        ensures
            r@ == self@.token_contract,
    {
        self.token_contract.clone()
    }

    /// Moves the clock on by `time_update` seconds.
    pub fn update_time(&mut self, time_update: u64)
        requires
            old(self)@.now + time_update <= u64::MAX,
        ensures
            final(self)@ == (SuiteModel { now: (old(self)@.now + time_update) as u64, ..old(self)@ }),
    {
        self.time = self.time + time_update;
    }

    /// Moves `amount` of `asset` from `from` into the ledger's custody.
    fn take(&mut self, asset: &AssetInfoValidated, from: &String, amount: u128) -> (r: Result<
        (),
        ContractError,
    >)
        ensures
            follows(old(self)@.take(asset@, from@, amount), old(self)@, final(self)@, r),
            final(self).ledger == old(self).ledger,
    {
        self.bank.transfer(asset, from, &self.stake_contract, amount)
    }

    /// Creates a distribution flow in the ledger.
    ///
    /// Fails, and changes nothing, exactly as the ledger does.
    pub fn create_distribution_flow(
        &mut self,
        sender: &str,
        manager: &str,
        asset: AssetInfo,
        rewards: Vec<(UnbondingPeriod, Decimal)>,
    ) -> (r: Result<(), ContractError>)
        requires
            old(self).inv(),
        ensures
            follows(
                old(self)@.create_distribution_flow(sender@, manager@, asset@, rewards@),
                old(self)@,
                final(self)@,
                r,
            ),
            final(self).inv(),
    {
        self.ledger.create_distribution_flow(sender, manager, asset, rewards)
    }

    /// `sender` bonds `amount` staking tokens for `unbonding_period`.
    ///
    /// Fails, and changes nothing, where the sender holds less than the
    /// amount, and where the ledger refuses.
    pub fn delegate(&mut self, sender: &str, amount: u128, unbonding_period: u64) -> (r: Result<
        (),
        ContractError,
    >)
        requires
            old(self).inv(),
        ensures
            follows(
                old(self)@.delegate(sender@, sender@, amount, unbonding_period),
                old(self)@,
                final(self)@,
                r,
            ),
            final(self).inv(),
    {
        self.delegate_as(sender, amount, unbonding_period, None)
    }

    /// `sender` hands over `amount` staking tokens, which are bonded for
    /// `unbonding_period` in the name of `delegate_as`, or of the sender.
    ///
    /// Fails, and changes nothing, where the sender holds less than the
    /// amount, and where the ledger refuses.
    pub fn delegate_as(
        &mut self,
        sender: &str,
        amount: u128,
        unbonding_period: u64,
        delegate_as: Option<&str>,
    ) -> (r: Result<(), ContractError>)
        requires
            old(self).inv(),
        ensures
            follows(
                old(self)@.delegate(
                    sender@,
                    name_or(name_view(delegate_as), sender@),
                    amount,
                    unbonding_period,
                ),
                old(self)@,
                final(self)@,
                r,
            ),
            final(self).inv(),
    {
        let saved: Bank = self.bank.copy();
        let token = AssetInfoValidated::Token(self.token_contract.clone());
        let from: String = sender.to_owned();
        match self.take(&token, &from, amount) {
            Ok(_) => {},
            Err(e) => {
                return Err(e);
            },
        }
        let staker: &str = match delegate_as {
            Some(name) => name,
            None => sender,
        };
        match self.ledger.delegate(staker, unbonding_period, amount, self.time) {
            Ok(_) => Ok(()),
            Err(e) => {
                self.bank = saved;
                Err(e)
            },
        }
    }

    /// `sender` hands over `amount` staking tokens, of which each address
    /// in `delegate_to` gets its share bonded for `unbonding_period`.
    ///
    /// Fails, and changes nothing, where the sender holds less than the
    /// amount, and where the ledger refuses.
    pub fn mass_delegate(
        &mut self,
        sender: &str,
        amount: u128,
        unbonding_period: u64,
        delegate_to: &[(&str, u128)],
    ) -> (r: Result<(), ContractError>)
        requires
            old(self).inv(),
        ensures
            follows(
                old(self)@.mass_delegate(
                    sender@,
                    amount,
                    unbonding_period,
                    slice_shares(delegate_to@),
                ),
                old(self)@,
                final(self)@,
                r,
            ),
            final(self).inv(),
    {
        let n: usize = delegate_to.len();
        let mut shares: Vec<(String, u128)> = Vec::new();
        let mut i: usize = 0;
        while i < n
            invariant
                n == delegate_to@.len(),
                0 <= i <= n,
                shares@.len() == i,
                forall|j: int|
                    0 <= j < i ==> (#[trigger] shares@[j]).0@ == delegate_to@[j].0@ && shares@[j].1
                        == delegate_to@[j].1,
            decreases n - i,
        {
            let entry: (&str, u128) = delegate_to[i];
            shares.push((entry.0.to_owned(), entry.1));
            i = i + 1;
        }
        assert(shares_view(shares@) =~= slice_shares(delegate_to@));
        let saved: Bank = self.bank.copy();
        let token = AssetInfoValidated::Token(self.token_contract.clone());
        let from: String = sender.to_owned();
        match self.take(&token, &from, amount) {
            Ok(_) => {},
            Err(e) => {
                return Err(e);
            },
        }
        match self.ledger.mass_delegate(amount, unbonding_period, &shares, self.time) {
            Ok(_) => Ok(()),
            Err(e) => {
                self.bank = saved;
                Err(e)
            },
        }
    }

    /// `sender` moves `amount` bonded tokens from the tier of `bond_from`
    /// to the tier of `bond_to`.
    ///
    /// Fails, and changes nothing, exactly as the ledger does.
    pub fn rebond(&mut self, sender: &str, amount: u128, bond_from: u64, bond_to: u64) -> (r: Result<
        (),
        ContractError,
    >)
        requires
            old(self).inv(),
        ensures
            follows(
                old(self)@.rebond(sender@, amount, bond_from, bond_to),
                old(self)@,
                final(self)@,
                r,
            ),
            final(self).inv(),
    {
        self.ledger.rebond(sender, amount, bond_from, bond_to, self.time)
    }

    /// `sender` takes `amount` bonded tokens out of the tier of
    /// `unbonding_period`. The tokens stay in custody.
    ///
    /// Fails, and changes nothing, exactly as the ledger does.
    pub fn unbond(&mut self, sender: &str, amount: u128, unbonding_period: u64) -> (r: Result<
        (),
        ContractError,
    >)
        requires
            old(self).inv(),
        ensures
            follows(
                old(self)@.unbond(sender@, amount, unbonding_period),
                old(self)@,
                final(self)@,
                r,
            ),
            final(self).inv(),
    {
        self.ledger.unbond(sender, unbonding_period, amount, self.time)
    }

    /// `sender` sends `amount` staking tokens to `recipient`.
    ///
    /// Fails, and changes nothing, exactly when the sender holds less than
    /// the amount or the recipient's balance would overflow.
    pub fn transfer(&mut self, sender: &str, recipient: &str, amount: u128) -> (r: Result<
        (),
        ContractError,
    >)
        requires
            old(self).inv(),
        ensures
            r == crate::ledger_model::outcome(
                old(self)@.bank.transfer_error(
                    old(self)@.staking_token(),
                    sender@,
                    recipient@,
                    amount,
                ),
            ),
            r is Ok ==> final(self)@ == (SuiteModel {
                bank: old(self)@.bank.transfer(
                    old(self)@.staking_token(),
                    sender@,
                    recipient@,
                    amount,
                ),
                ..old(self)@
            }),
            r is Err ==> final(self)@ == old(self)@,
            final(self).inv(),
    {
        let token = AssetInfoValidated::Token(self.token_contract.clone());
        self.bank.transfer(&token, &sender.to_owned(), &recipient.to_owned(), amount)
    }

    /// Chooses `delegated` as the address that receives what `executor`
    /// withdraws.
    pub fn delegate_withdrawal(&mut self, executor: &str, delegated: &str) -> (r: Result<
        (),
        ContractError,
    >)
        requires
            old(self).inv(),
        ensures
            r is Ok,
            final(self)@ == (SuiteModel {
                ledger: old(self)@.ledger.delegate_withdrawal(executor@, delegated@),
                ..old(self)@
            }),
            final(self).inv(),
    {
        self.ledger.delegate_withdrawal(executor, delegated);
        Ok(())
    }
}


/// The schedule of a funding through the suite: all of `amount` locked at
/// the funding, nothing a hundred seconds later.
pub open spec fn hundred_seconds(amount: u128) -> CurveModel {
    CurveModel::SaturatingLinear(
        SaturatingLinear { min_x: 0, min_y: amount, max_x: 100, max_y: 0 },
    )
}

impl SuiteModel {
    /// `r` and `after` are the outcome of `executor` funding the flow of
    /// `asset` with `amount` units that unlock over a hundred seconds: the
    /// units go into custody, and the ledger takes the funding, or refuses
    /// it. A funding that fails changes nothing.
    pub open spec fn fund_outcome(
        self,
        after: SuiteModel,
        executor: Seq<char>,
        asset: AssetModel,
        amount: u128,
        r: Result<(), ContractError>,
    ) -> bool {
        match self.take(asset, executor, amount) {
            Err(e) => r == Err::<(), ContractError>(e) && after == self,
            Ok(taken) => {
                &&& taken.ledger.fund_outcome(
                    after.ledger,
                    executor,
                    asset,
                    amount,
                    hundred_seconds(amount),
                    self.now,
                    r,
                )
                &&& r is Ok ==> after == (SuiteModel { ledger: after.ledger, ..taken })
                &&& r is Err ==> after == self
            },
        }
    }
}

impl Suite {
    /// `executor` funds the flow of `asset` with `amount` units that unlock
    /// over a hundred seconds.
    fn fund_with(&mut self, executor: &str, asset: AssetInfoValidated, amount: u128) -> (r: Result<
        (),
        ContractError,
    >)
        requires
            old(self).inv(),
        ensures
            old(self)@.fund_outcome(final(self)@, executor@, asset@, amount, r),
            final(self).inv(),
    {
        let saved: Bank = self.bank.copy();
        let from: String = executor.to_owned();
        match self.take(&asset, &from, amount) {
            Ok(_) => {},
            Err(e) => {
                return Err(e);
            },
        }
        let curve: Curve = Curve::saturating_linear((0, amount), (100, 0));
        match self.ledger.fund(executor, &asset, amount, curve, self.time) {
            Ok(_) => Ok(()),
            Err(e) => {
                self.bank = saved;
                Err(e)
            },
        }
    }

    /// `executor` funds the flow of the native coin that is named as
    /// `funds` are, with the amount of `funds`, which unlocks over a hundred
    /// seconds from now.
    ///
    /// Fails, and changes nothing, where the executor holds less than the
    /// amount, and where the ledger refuses the funding.
    pub fn execute_fund_distribution(
        &mut self,
        executor: &str,
        sender: Option<&str>,
        funds: AssetValidated,
    ) -> (r: Result<(), ContractError>)
        requires
            old(self).inv(),
        ensures
            old(self)@.fund_outcome(
                final(self)@,
                executor@,
                AssetModel::Native(funds.info.name()),
                funds.amount,
                r,
            ),
            final(self).inv(),
    {
        let asset = AssetInfoValidated::Native(funds.info.to_string());
        self.fund_with(executor, asset, funds.amount)
    }

    /// `executor` funds the flow of the token at `token` with the amount of
    /// `funds`, which unlocks over a hundred seconds from now.
    ///
    /// Fails, and changes nothing, where the executor holds less than the
    /// amount, and where the ledger refuses the funding.
    pub fn execute_fund_distribution_with_cw20(
        &mut self,
        executor: &str,
        funds: AssetValidated,
        token: String,
    ) -> (r: Result<(), ContractError>)
        requires
            old(self).inv(),
        ensures
            old(self)@.fund_outcome(
                final(self)@,
                executor@,
                AssetModel::Token(token@),
                funds.amount,
                r,
            ),
            final(self).inv(),
    {
        let asset = AssetInfoValidated::Token(token);
        self.fund_with(executor, asset, funds.amount)
    }

    /// Where `funds` are given, `sender`, or else `executor`, transfers
    /// them into custody, where the flow that pays their asset has them at
    /// once. Then every flow releases what is releasable.
    ///
    /// Fails, and changes nothing, where the payer holds less than the
    /// funds, and where the ledger's arithmetic overflows.
    pub fn distribute_funds(
        &mut self,
        executor: &str,
        sender: Option<&str>,
        funds: Option<AssetValidated>,
    ) -> (r: Result<(), ContractError>)
        requires
            old(self).inv(),
        ensures
            follows(
                old(self)@.distribute_funds(name_or(name_view(sender), executor@), funds_view(funds)),
                old(self)@,
                final(self)@,
                r,
            ),
            final(self).inv(),
    {
        let saved_bank: Bank = self.bank.copy();
        let saved_ledger: Ledger = self.ledger.copy();
        match funds {
            Some(funds) => {
                let payer: String = match sender {
                    Some(name) => name.to_owned(),
                    None => executor.to_owned(),
                };
                match self.take(&funds.info, &payer, funds.amount) {
                    Ok(_) => {},
                    Err(e) => {
                        return Err(e);
                    },
                }
                if self.ledger.find_flow(&funds.info).is_some() {
                    match self.ledger.deposit(&funds.info, funds.amount) {
                        Ok(_) => {},
                        Err(e) => {
                            self.bank = saved_bank;
                            return Err(e);
                        },
                    }
                }
            },
            None => {},
        }
        match self.ledger.distribute_rewards(self.time) {
            Ok(_) => Ok(()),
            Err(e) => {
                self.bank = saved_bank;
                self.ledger = saved_ledger;
                Err(e)
            },
        }
    }

    /// `executor` withdraws the rewards of `owner`, or its own: the ledger
    /// settles the owner's accounts, and custody pays what they yield to
    /// `receiver`, or to the address that the owner has chosen, or to the
    /// owner.
    ///
    /// Fails, and changes nothing, where the ledger refuses, and where
    /// custody cannot pay.
    pub fn withdraw_funds(&mut self, executor: &str, owner: Option<&str>, receiver: Option<&str>)
        -> (r: Result<(), ContractError>)
        requires
            old(self).inv(),
        ensures
            follows(
                old(self)@.withdraw_funds(executor@, name_view(owner), name_view(receiver)),
                old(self)@,
                final(self)@,
                r,
            ),
            final(self).inv(),
    {
        let saved_bank: Bank = self.bank.copy();
        let saved_ledger: Ledger = self.ledger.copy();
        let paid: Withdrawal = match self.ledger.withdraw_rewards(
            executor,
            owner,
            receiver,
            self.time,
        ) {
            Ok(v) => v,
            Err(e) => {
                return Err(e);
            },
        };
        let ghost to = paid.receiver@;
        let ghost rewards = rewards_view(paid.rewards@);
        let ghost who = name_or(name_view(owner), executor@);
        assert(who == crate::ledger::owner_of(executor, owner));
        let n: usize = paid.rewards.len();
        let mut i: usize = 0;
        while i < n
            invariant
                n == paid.rewards@.len(),
                0 <= i <= n,
                to == paid.receiver@,
                rewards == rewards_view(paid.rewards@),
                saved_bank@ == old(self)@.bank,
                saved_ledger@ == old(self)@.ledger,
                self@.ledger == old(self)@.ledger.withdraw_rewards(who, old(self)@.now),
                who == name_or(name_view(owner), executor@),
                to == name_or(name_view(receiver), old(self)@.ledger.delegated(who)),
                rewards == old(self)@.ledger.rewards_paid(who, old(self)@.now),
                old(self)@.ledger.withdraw_error(executor@, who, old(self)@.now) is None,
                self@.stake_contract == old(self)@.stake_contract,
                self@.token_contract == old(self)@.token_contract,
                self@.now == old(self)@.now,
                self@.contracts == old(self)@.contracts,
                self.inv(),
                old(self).inv(),
                Ok::<BankModel, ContractError>(self@.bank) == old(self)@.pay(to, rewards, i as int),
            decreases n - i,
        {
            let reward: &AssetValidated = &paid.rewards[i];
            match self.bank.transfer(&reward.info, &self.stake_contract, &paid.receiver, reward.amount) {
                Ok(_) => {},
                Err(e) => {
                    proof {
                        lemma_pay_stays_failed(old(self)@, to, rewards, i + 1, n as int);
                    }
                    self.bank = saved_bank;
                    self.ledger = saved_ledger;
                    return Err(e);
                },
            }
            i = i + 1;
        }
        Ok(())
    }
}


/// The first `k` of `powers` that are above zero, in their order.
pub open spec fn positive(powers: Seq<(AssetModel, u128)>, k: int) -> Seq<(AssetModel, u128)>
    decreases k,
{
    if k <= 0 {
        Seq::empty()
    } else if powers[k - 1].1 > 0 {
        positive(powers, k - 1).push(powers[k - 1])
    } else {
        positive(powers, k - 1)
    }
}

/// The powers that are above zero, in their order.
fn only_positive(powers: Vec<(AssetInfoValidated, u128)>) -> (r: Vec<(AssetInfoValidated, u128)>)
    ensures
        powers_view(r@) == positive(powers_view(powers@), powers@.len() as int),
{
    let n: usize = powers.len();
    let mut out: Vec<(AssetInfoValidated, u128)> = Vec::new();
    let mut i: usize = 0;
    assert(powers_view(out@) =~= positive(powers_view(powers@), 0));
    while i < n
        invariant
            n == powers@.len(),
            0 <= i <= n,
            powers_view(out@) == positive(powers_view(powers@), i as int),
        decreases n - i,
    {
        if powers[i].1 > 0 {
            let ghost before = out@;
            out.push((powers[i].0.clone(), powers[i].1));
            assert(powers_view(out@) =~= powers_view(before).push(powers_view(powers@)[i as int]));
        }
        i = i + 1;
    }
    out
}

/// Credits of the token at `address`, one for each balance.
pub open spec fn token_credits(address: Seq<char>, balances: Seq<(&str, u128)>) -> Seq<
    (AssetModel, Seq<char>, u128),
> {
    Seq::new(
        balances.len(),
        |i: int| (AssetModel::Token(address), balances[i].0@, balances[i].1),
    )
}

impl Suite {
    /// Sets up one more token, with the given balances, and returns its
    /// address: `contract` and the number of contracts set up before it.
    ///
    /// Fails with an overflow, and changes nothing, exactly when a balance,
    /// or the number of contracts, would overflow.
    pub fn create_token(&mut self, initial_balances: Vec<(&str, u128)>) -> (r: Result<
        String,
        ContractError,
    >)
        requires
            old(self).inv(),
        ensures
            r is Ok <==> old(self)@.contracts < u64::MAX && credited(
                old(self)@.bank,
                token_credits(old(self)@.next_contract(), initial_balances@),
                initial_balances@.len() as int,
            ) is Some,
            r matches Ok(address) ==> address@ == old(self)@.next_contract() && Some(
                final(self)@.bank,
            ) == credited(
                old(self)@.bank,
                token_credits(address@, initial_balances@),
                initial_balances@.len() as int,
            ) && final(self)@ == (SuiteModel {
                bank: final(self)@.bank,
                contracts: (old(self)@.contracts + 1) as u64,
                ..old(self)@
            }),
            r matches Err(e) ==> e == (ContractError::Overflow {  }) && final(self)@ == old(
                self,
            )@,
            final(self).inv(),
    {
        if self.contracts == u64::MAX {
            return Err(ContractError::Overflow {  });
        }
        let address: String = numbered("contract".to_owned(), self.contracts);
        let token = AssetInfoValidated::Token(address.clone());
        let saved: Bank = self.bank.copy();
        let ghost credits = token_credits(address@, initial_balances@);
        let n: usize = initial_balances.len();
        let mut i: usize = 0;
        while i < n
            invariant
                n == initial_balances@.len(),
                0 <= i <= n,
                token@ == AssetModel::Token(address@),
                address@ == old(self)@.next_contract(),
                credits == token_credits(address@, initial_balances@),
                saved@ == old(self)@.bank,
                self.ledger == old(self).ledger,
                self.time == old(self).time,
                self.contracts == old(self).contracts,
                self.stake_contract == old(self).stake_contract,
                self.token_contract == old(self).token_contract,
                old(self).inv(),
                Some(self@.bank) == credited(old(self)@.bank, credits, i as int),
            decreases n - i,
        {
            let entry: (&str, u128) = initial_balances[i];
            match self.bank.mint(&token, &entry.0.to_owned(), entry.1) {
                Ok(_) => {},
                Err(e) => {
                    proof {
                        assert(credited(old(self)@.bank, credits, i + 1) is None);
                        if credited(old(self)@.bank, credits, n as int) is Some {
                            lemma_credited_prefix(old(self)@.bank, credits, i + 1, n as int);
                        }
                    }
                    self.bank = saved;
                    return Err(e);
                },
            }
            i = i + 1;
        }
        self.contracts = self.contracts + 1;
        Ok(address)
    }

    /// What `owner` can withdraw from each flow as the books stand.
    pub fn withdrawable_rewards(&self, owner: &str) -> (r: Result<Vec<AssetValidated>, ContractError>)
        requires
            self.inv(),
        ensures
            r is Err <==> self@.ledger.owed_fails(owner@),
            r matches Ok(rewards) ==> rewards_view(rewards@) == Seq::new(
                self@.ledger.flows.len(),
                |f: int| (self@.ledger.flows[f].asset, self@.ledger.owed(f, owner@) as u128),
            ),
    {
        self.ledger.withdrawable_rewards(owner)
    }

    /// The units that each flow has ever released to its stakers.
    pub fn distributed_funds(&self) -> (r: Result<Vec<AssetValidated>, ContractError>)
        ensures
            r matches Ok(funds) && rewards_view(funds@) == Seq::new(
                self@.ledger.flows.len(),
                |f: int|
                    (
                        self@.ledger.flows[f].asset,
                        self@.ledger.flows[f].book.totals.distributed_total as u128,
                    ),
            ),
    {
        Ok(self.ledger.distributed_funds())
    }

    /// The units that each flow has released and not yet paid out.
    pub fn withdrawable_funds(&self) -> (r: Result<Vec<AssetValidated>, ContractError>)
        ensures
            r matches Ok(funds) && rewards_view(funds@) == Seq::new(
                self@.ledger.flows.len(),
                |f: int|
                    (
                        self@.ledger.flows[f].asset,
                        self@.ledger.flows[f].book.totals.withdrawable_total as u128,
                    ),
            ),
    {
        Ok(self.ledger.withdrawable_funds())
    }

    /// The units that each flow was funded with and has not yet released.
    pub fn undistributed_funds(&self) -> (r: Result<Vec<AssetValidated>, ContractError>)
        requires
            self.inv(),
        ensures
            r matches Ok(funds) && rewards_view(funds@) == Seq::new(
                self@.ledger.flows.len(),
                |f: int|
                    (
                        self@.ledger.flows[f].asset,
                        (self@.ledger.flows[f].funded_total
                            - self@.ledger.flows[f].book.totals.distributed_total) as u128,
                    ),
            ),
    {
        Ok(self.ledger.undistributed_funds())
    }

    /// The address that receives what `owner` withdraws where a withdrawal
    /// names no receiver.
    pub fn delegated(&self, owner: &str) -> (r: Result<String, ContractError>)
        ensures
            r matches Ok(name) && name@ == self@.ledger.delegated(owner@),
    {
        Ok(self.ledger.delegated(owner))
    }

    /// What `address` holds of the native coin `denom`.
    pub fn query_balance(&self, address: &str, denom: &str) -> (r: Result<u128, ContractError>)
        ensures
            r == Ok::<u128, ContractError>(
                self@.bank.balance(AssetModel::Native(denom@), address@),
            ),
    {
        let asset = AssetInfoValidated::Native(denom.to_owned());
        Ok(self.bank.balance(&asset, &address.to_owned()))
    }

    /// What `address` holds of the token at `cw20`.
    pub fn query_cw20_balance(&self, address: &str, cw20: &str) -> (r: Result<u128, ContractError>)
        ensures
            r == Ok::<u128, ContractError>(self@.bank.balance(AssetModel::Token(cw20@), address@)),
    {
        let asset = AssetInfoValidated::Token(cw20.to_owned());
        Ok(self.bank.balance(&asset, &address.to_owned()))
    }

    /// What `address` holds of the staking token.
    pub fn query_balance_vesting_contract(&self, address: &str) -> (r: Result<u128, ContractError>)
        ensures
            r == Ok::<u128, ContractError>(self@.bank.balance(self@.staking_token(), address@)),
    {
        let asset = AssetInfoValidated::Token(self.token_contract.clone());
        Ok(self.bank.balance(&asset, &address.to_owned()))
    }

    /// What the ledger holds of the staking token.
    pub fn query_balance_staking_contract(&self) -> (r: Result<u128, ContractError>)
        ensures
            r == Ok::<u128, ContractError>(
                self@.bank.balance(self@.staking_token(), self@.stake_contract),
            ),
    {
        let asset = AssetInfoValidated::Token(self.token_contract.clone());
        Ok(self.bank.balance(&asset, &self.stake_contract))
    }

    /// The tokens that `address` has bonded for `unbonding_period`.
    pub fn query_staked(&self, address: &str, unbonding_period: u64) -> (r: Result<
        u128,
        ContractError,
    >)
        requires
            self.inv(),
        ensures
            r == (match self@.ledger.tier(unbonding_period) {
                Some(t) => Ok::<u128, ContractError>(self@.ledger.staked(address@, t)),
                None => Err(ContractError::NoUnbondingPeriodFound { period: unbonding_period }),
            }),
    {
        self.ledger.staked(address, unbonding_period)
    }

    /// The power that `address` has in the flows in which it has some.
    pub fn query_rewards_power(&self, address: &str) -> (r: Result<
        Vec<(AssetInfoValidated, u128)>,
        ContractError,
    >)
        requires
            self.inv(),
        ensures
            r matches Ok(powers) && powers_view(powers@) == positive(
                Seq::new(
                    self@.ledger.flows.len(),
                    |f: int|
                        (self@.ledger.flows[f].asset, self@.ledger.power_in(f, address@) as u128),
                ),
                self@.ledger.flows.len() as int,
            ),
    {
        let all = self.ledger.rewards_power(address);
        assert(all@.len() == powers_view(all@).len());
        Ok(only_positive(all))
    }

    /// The power of all stakers together in the flows in which there is
    /// some.
    pub fn query_total_rewards_power(&self) -> (r: Result<
        Vec<(AssetInfoValidated, u128)>,
        ContractError,
    >)
        ensures
            r matches Ok(powers) && powers_view(powers@) == positive(
                Seq::new(
                    self@.ledger.flows.len(),
                    |f: int|
                        (
                            self@.ledger.flows[f].asset,
                            self@.ledger.flows[f].book.totals.total_power as u128,
                        ),
                ),
                self@.ledger.flows.len() as int,
            ),
    {
        let all = self.ledger.total_rewards_power();
        assert(all@.len() == powers_view(all@).len());
        Ok(only_positive(all))
    }
}


impl Suite {
    /// The yearly reward of one bonded token, by tier and flow, as
    /// projected now.
    ///
    /// Fails with an overflow exactly when a reward cannot be computed in
    /// 128 bits.
    pub fn query_annualized_rewards(&self) -> (r: Result<
        Vec<(UnbondingPeriod, Vec<AnnualizedReward>)>,
        ContractError,
    >)
        requires
            self.inv(),
        ensures
            r is Err <==> exists|t: int|
                0 <= t < self@.ledger.periods.len() && #[trigger] self@.ledger.rates_fail(
                    t,
                    self@.now,
                ),
            r matches Ok(rows) ==> rows_view(rows@) == Seq::new(
                self@.ledger.periods.len(),
                |t: int| (self@.ledger.periods[t], self@.ledger.rates(t, self@.now)),
            ),
    {
        let r = self.ledger.annualized_rewards(self.time);
        proof {
            let ledger = self.ledger@;
            let now = self.time;
            assert(self@.ledger == ledger && self@.now == now);
            if r is Err {
                let t = choose|t: int|
                    0 <= t < ledger.periods.len() && #[trigger] ledger.rates_fail(t, now);
                assert(self@.ledger.rates_fail(t, self@.now));
            }
            if exists|t: int|
                0 <= t < self@.ledger.periods.len() && #[trigger] self@.ledger.rates_fail(
                    t,
                    self@.now,
                ) {
                let t = choose|t: int|
                    0 <= t < self@.ledger.periods.len() && #[trigger] self@.ledger.rates_fail(
                        t,
                        self@.now,
                    );
                assert(ledger.rates_fail(t, now));
            }
        }
        r
    }
}

} // verus!
