//! The staking ledger as a mathematical object: its state, what each
//! operation makes of it, and when an operation fails.

use vstd::prelude::*;
use crate::asset::AssetModel;
use crate::book::{
    lemma_change_power_keeps_balance,
    lemma_open_account_keeps_balance,
    lemma_release_keeps_balance,
    lemma_withdraw_keeps_balance,
    sum_power,
    AccountModel,
    BookModel,
    TotalsModel,
};
use crate::combine::combination;
use crate::curve::{lemma_locked_nonnegative, CurveError, CurveModel};
use crate::error::ContractError;
use crate::lookup::{find, first};
use crate::math::Decimal;
use crate::apr::{annual_payout, token_rate};
use crate::stake::{
    lemma_power_nonnegative,
    power_of,
    power_overflows,
    tier_power,
    tier_power_result,
};

verus! {

/// A staker: an address, the amount bonded in each tier, and the address
/// that receives the staker's withdrawals where it is not the staker.
pub ghost struct StakerModel {
    pub address: Seq<char>,
    pub stakes: Seq<u128>,
    pub delegated: Option<Seq<char>>,
}

/// A distribution flow: a reward asset, who manages it, the multiplier of
/// each tier, the schedule of what is still locked, the units ever funded,
/// and the accounts.
pub ghost struct FlowModel {
    pub asset: AssetModel,
    pub manager: Seq<char>,
    pub multipliers: Seq<Decimal>,
    pub curve: CurveModel,
    pub funded_total: int,
    pub book: BookModel,
}

/// The staking ledger.
pub ghost struct LedgerModel {
    pub tokens_per_power: int,
    pub min_bond: int,
    pub periods: Seq<u64>,
    pub max_distributions: int,
    pub admin: Option<Seq<char>>,
    pub unbonder: Option<Seq<char>>,
    pub staking_token: Seq<char>,
    pub stakers: Seq<StakerModel>,
    pub flows: Seq<FlowModel>,
}

impl FlowModel {
    /// The units that are funded, not yet released, and no longer locked at
    /// `now`.
    pub open spec fn releasable(self, now: u64) -> int {
        self.funded_total - self.book.totals.distributed_total - self.curve.locked(now as int)
    }

    /// The flow after all that is releasable at `now` was released.
    pub open spec fn release(self, now: u64) -> FlowModel {
        FlowModel { book: self.book.release(self.releasable(now)), ..self }
    }

    /// The release at `now` fails: the schedule cannot be evaluated, it
    /// locks more than is left to release, or the release overflows.
    pub open spec fn release_fails(self, now: u64) -> bool {
        ||| self.curve.value(now) is Err
        ||| self.releasable(now) < 0
        ||| self.book.totals.release_overflows(self.releasable(now))
    }

    /// The flow after a release at `now` and a change of account `s` to
    /// `power`.
    pub open spec fn settle(self, now: u64, s: int, power: int) -> FlowModel {
        FlowModel { book: self.release(now).book.change_power(s, power), ..self }
    }

    /// The flow after a release at `now` and a withdrawal of account `s`.
    pub open spec fn pay(self, now: u64, s: int) -> FlowModel {
        FlowModel { book: self.release(now).book.withdraw(s), ..self }
    }

    /// What account `s` withdraws after a release at `now`.
    pub open spec fn payout(self, now: u64, s: int) -> int {
        self.release(now).book.owed(s)
    }

    /// The flow with one more account, without power.
    pub open spec fn open_account(self) -> FlowModel {
        FlowModel { book: self.book.open_account(), ..self }
    }
}

impl LedgerModel {
    /// The addresses of the stakers, in the order in which they joined.
    pub open spec fn addresses(self) -> Seq<Seq<char>> {
        Seq::new(self.stakers.len(), |i: int| self.stakers[i].address)
    }

    /// The assets of the flows, in the order in which they were created.
    pub open spec fn assets(self) -> Seq<AssetModel> {
        Seq::new(self.flows.len(), |i: int| self.flows[i].asset)
    }

    /// The index of the staker with `address`, where there is one.
    pub open spec fn staker(self, address: Seq<char>) -> Option<int> {
        find(self.addresses(), address)
    }

    /// The index of the flow that pays `asset`, where there is one.
    pub open spec fn flow(self, asset: AssetModel) -> Option<int> {
        find(self.assets(), asset)
    }

    /// The index of the tier with the unbonding period `period`, where
    /// there is one.
    pub open spec fn tier(self, period: u64) -> Option<int> {
        find(self.periods, period)
    }

    /// The power that positions of `stakes` have in flow `f`.
    pub open spec fn power(self, f: int, stakes: Seq<u128>) -> int {
        power_of(self.tokens_per_power, self.min_bond, stakes, self.flows[f].multipliers)
    }

    /// The power that positions of `stakes` have in flow `f` cannot be
    /// computed in 128 bits.
    pub open spec fn power_fails(self, f: int, stakes: Seq<u128>) -> bool {
        power_overflows(self.tokens_per_power, self.min_bond, stakes, self.flows[f].multipliers)
    }

    /// Flow `f` is sound within this ledger: it has a multiplier for each
    /// tier and an account for each staker, its book balances, its schedule
    /// never rises, it has released no more than was funded, and each
    /// account has the power of its staker's positions.
    pub open spec fn flow_inv(self, f: int) -> bool {
        let flow = self.flows[f];
        &&& flow.multipliers.len() == self.periods.len()
        &&& flow.book.accounts.len() == self.stakers.len()
        &&& flow.book.inv()
        &&& flow.curve.falls()
        &&& flow.book.totals.distributed_total <= flow.funded_total
        &&& forall|s: int|
            0 <= s < self.stakers.len() ==> (#[trigger] flow.book.accounts[s]).power
                == self.power(f, self.stakers[s].stakes)
    }

    /// The ledger is sound: a point of power takes some tokens, every staker
    /// has a position in each tier, and every flow is sound.
    pub open spec fn inv(self) -> bool {
        &&& self.tokens_per_power > 0
        &&& forall|s: int|
            0 <= s < self.stakers.len() ==> (#[trigger] self.stakers[s]).stakes.len()
                == self.periods.len()
        &&& forall|f: int| 0 <= f < self.flows.len() ==> #[trigger] self.flow_inv(f)
    }

    /// Positions without tokens, one per tier.
    pub open spec fn no_stakes(self) -> Seq<u128> {
        Seq::new(self.periods.len(), |i: int| 0u128)
    }

    /// The ledger with one more staker, without tokens, and an account for
    /// the staker in every flow.
    pub open spec fn register(self, address: Seq<char>) -> LedgerModel {
        LedgerModel {
            stakers: self.stakers.push(
                StakerModel { address, stakes: self.no_stakes(), delegated: None },
            ),
            flows: Seq::new(self.flows.len(), |f: int| self.flows[f].open_account()),
            ..self
        }
    }

    /// The ledger in which `address` is a staker: as it is where the address
    /// is one already, with the address registered where it is not.
    pub open spec fn with_staker(self, address: Seq<char>) -> LedgerModel {
        if self.staker(address) is Some {
            self
        } else {
            self.register(address)
        }
    }

    /// The index that `address` has as a staker, once it is one.
    pub open spec fn staker_slot(self, address: Seq<char>) -> int {
        match self.staker(address) {
            Some(s) => s,
            None => self.stakers.len() as int,
        }
    }

    /// Flow `f` as a staker with index `slot` finds it: as it is for a
    /// staker of the ledger, with a new account for the next to join.
    pub open spec fn flow_for(self, f: int, slot: int) -> FlowModel {
        if slot < self.stakers.len() {
            self.flows[f]
        } else {
            self.flows[f].open_account()
        }
    }

    /// The ledger after staker `s` changed positions to `stakes` at `now`:
    /// every flow releases what is releasable, and then takes the staker
    /// at the new power.
    pub open spec fn restake(self, s: int, stakes: Seq<u128>, now: u64) -> LedgerModel {
        LedgerModel {
            stakers: self.stakers.update(s, StakerModel { stakes, ..self.stakers[s] }),
            flows: Seq::new(
                self.flows.len(),
                |f: int| self.flows[f].settle(now, s, self.power(f, stakes)),
            ),
            ..self
        }
    }

    /// The positions of the staker with `address`: without tokens where the
    /// address is no staker yet.
    pub open spec fn stakes_of(self, address: Seq<char>) -> Seq<u128> {
        match self.staker(address) {
            Some(s) => self.stakers[s].stakes,
            None => self.no_stakes(),
        }
    }

    /// The ledger after the staker with `address`, registered where new,
    /// changed positions to `stakes` at `now`.
    pub open spec fn bond(self, address: Seq<char>, stakes: Seq<u128>, now: u64) -> LedgerModel {
        self.with_staker(address).restake(self.staker_slot(address), stakes, now)
    }

    /// The change of the staker with `address` to `stakes` at `now` fails in
    /// some flow.
    pub open spec fn bond_fails(self, address: Seq<char>, stakes: Seq<u128>, now: u64) -> bool {
        self.with_staker(address).restake_fails(self.staker_slot(address), stakes, now)
    }

    /// The change of staker `s` to `stakes` at `now` fails in flow `f`.
    pub open spec fn restake_fails_in(self, f: int, s: int, stakes: Seq<u128>, now: u64) -> bool {
        ||| self.power_fails(f, stakes)
        ||| self.flows[f].release_fails(now)
        ||| self.flows[f].release(now).book.change_power_overflows(s, self.power(f, stakes))
    }

    /// The change of staker `s` to `stakes` at `now` fails in some flow.
    pub open spec fn restake_fails(self, s: int, stakes: Seq<u128>, now: u64) -> bool {
        exists|f: int|
            0 <= f < self.flows.len() && #[trigger] self.restake_fails_in(f, s, stakes, now)
    }
}


/// Positions without tokens have no power.
pub proof fn lemma_no_stakes_no_power(
    tokens_per_power: int,
    min_bond: int,
    n: nat,
    multipliers: Seq<Decimal>,
)
    requires
        tokens_per_power > 0,
        min_bond >= 0,
    ensures
        power_of(tokens_per_power, min_bond, Seq::new(n, |i: int| 0u128), multipliers) == 0,
    decreases n,
{
    let stakes = Seq::new(n, |i: int| 0u128);
    if n > 0 && multipliers.len() == n {
        assert(stakes.drop_last() == Seq::new((n - 1) as nat, |i: int| 0u128));
        lemma_no_stakes_no_power(tokens_per_power, min_bond, (n - 1) as nat, multipliers.drop_last());
        let m = multipliers.last();
        assert(0 * m.atomics == 0);
        assert(tier_power(tokens_per_power, min_bond, 0, m) == 0) by (nonlinear_arith)
            requires
                tokens_per_power > 0,
                tier_power(tokens_per_power, min_bond, 0, m) == (if 0 < min_bond {
                    0
                } else {
                    (0int / 1_000_000_000_000_000_000) / tokens_per_power
                }),
        ;
    }
}

/// A release at a time at which it does not fail keeps a flow sound.
pub proof fn lemma_release_keeps_flow(ledger: LedgerModel, f: int, now: u64)
    requires
        ledger.inv(),
        0 <= f < ledger.flows.len(),
        ledger.min_bond >= 0,
        !ledger.flows[f].release_fails(now),
    ensures
        ledger.flows[f].release(now).book.inv(),
        ledger.flows[f].release(now).book.accounts == ledger.flows[f].book.accounts,
        ledger.flows[f].release(now).book.totals.distributed_total
            <= ledger.flows[f].funded_total,
        ledger.flows[f].release(now).book.totals.total_power
            == ledger.flows[f].book.totals.total_power,
        ledger.flows[f].releasable(now) >= 0,
{
    assert(ledger.flow_inv(f));
    let flow = ledger.flows[f];
    lemma_release_keeps_balance(flow.book, flow.releasable(now));
    lemma_locked_nonnegative(flow.curve, now as int);
}

/// A change of positions that does not fail keeps the ledger sound.
pub proof fn lemma_restake_keeps_inv(ledger: LedgerModel, s: int, stakes: Seq<u128>, now: u64)
    requires
        ledger.inv(),
        ledger.min_bond >= 0,
        0 <= s < ledger.stakers.len(),
        stakes.len() == ledger.periods.len(),
        !ledger.restake_fails(s, stakes, now),
    ensures
        ledger.restake(s, stakes, now).inv(),
{
    let after = ledger.restake(s, stakes, now);
    assert forall|t: int| 0 <= t < after.stakers.len() implies (#[trigger] after.stakers[t]).stakes.len()
        == after.periods.len() by {
        if t != s {
            assert(after.stakers[t] == ledger.stakers[t]);
        }
    }
    assert forall|f: int| 0 <= f < after.flows.len() implies #[trigger] after.flow_inv(f) by {
        assert(ledger.flow_inv(f));
        assert(!ledger.restake_fails_in(f, s, stakes, now));
        let flow = ledger.flows[f];
        let power = ledger.power(f, stakes);
        lemma_release_keeps_flow(ledger, f, now);
        lemma_power_nonnegative(ledger.tokens_per_power, ledger.min_bond, stakes, flow.multipliers);
        lemma_change_power_keeps_balance(flow.release(now).book, s, power);
        let book = after.flows[f].book;
        assert forall|t: int| 0 <= t < after.stakers.len() implies (#[trigger] book.accounts[t]).power
            == after.power(f, after.stakers[t].stakes) by {
            if t != s {
                assert(after.stakers[t] == ledger.stakers[t]);
                assert(book.accounts[t] == flow.book.accounts[t]);
            }
        }
    }
}

/// A new staker keeps the ledger sound.
pub proof fn lemma_register_keeps_inv(ledger: LedgerModel, address: Seq<char>)
    requires
        ledger.inv(),
        ledger.min_bond >= 0,
    ensures
        ledger.register(address).inv(),
{
    let after = ledger.register(address);
    let n = ledger.stakers.len() as int;
    assert forall|t: int| 0 <= t < after.stakers.len() implies (#[trigger] after.stakers[t]).stakes.len()
        == after.periods.len() by {
        if t < n {
            assert(after.stakers[t] == ledger.stakers[t]);
        }
    }
    assert forall|f: int| 0 <= f < after.flows.len() implies #[trigger] after.flow_inv(f) by {
        assert(ledger.flow_inv(f));
        let flow = ledger.flows[f];
        lemma_open_account_keeps_balance(flow.book);
        lemma_no_stakes_no_power(
            ledger.tokens_per_power,
            ledger.min_bond,
            ledger.periods.len(),
            flow.multipliers,
        );
        let book = after.flows[f].book;
        assert forall|t: int| 0 <= t < after.stakers.len() implies (#[trigger] book.accounts[t]).power
            == after.power(f, after.stakers[t].stakes) by {
            if t < n {
                assert(after.stakers[t] == ledger.stakers[t]);
                assert(book.accounts[t] == flow.book.accounts[t]);
            }
        }
    }
}


/// The outcome of an operation that returns nothing: the error, where there
/// is one.
pub open spec fn outcome(error: Option<ContractError>) -> Result<(), ContractError> {
    match error {
        Some(e) => Err(e),
        None => Ok(()),
    }
}

impl LedgerModel {
    /// The positions of `address` after `amount` more tokens were bonded in
    /// tier `t`.
    pub open spec fn stakes_with_more(self, address: Seq<char>, t: int, amount: u128) -> Seq<u128> {
        let stakes = self.stakes_of(address);
        stakes.update(t, (stakes[t] + amount) as u128)
    }

    /// The positions of `address` after `amount` tokens left tier `t`.
    pub open spec fn stakes_with_less(self, address: Seq<char>, t: int, amount: u128) -> Seq<u128> {
        let stakes = self.stakes_of(address);
        stakes.update(t, (stakes[t] - amount) as u128)
    }

    /// The positions of `address` after `amount` tokens moved from tier
    /// `from` to tier `to`.
    pub open spec fn stakes_moved(self, address: Seq<char>, from: int, to: int, amount: u128) -> Seq<
        u128,
    > {
        let less = self.stakes_with_less(address, from, amount);
        less.update(to, (less[to] + amount) as u128)
    }

    /// Why `address` cannot bond `amount` more tokens for `period` at `now`,
    /// if it cannot: the period is no tier; or the position, or a flow's
    /// arithmetic, would overflow.
    pub open spec fn delegate_error(self, address: Seq<char>, period: u64, amount: u128, now: u64)
        -> Option<ContractError> {
        match self.tier(period) {
            None => Some(ContractError::NoUnbondingPeriodFound { period }),
            Some(t) => if self.stakes_of(address)[t] + amount > u128::MAX {
                Some(ContractError::Overflow {  })
            } else if self.bond_fails(address, self.stakes_with_more(address, t, amount), now) {
                Some(ContractError::Overflow {  })
            } else {
                None
            },
        }
    }

    /// The ledger after `address` bonded `amount` more tokens for `period`
    /// at `now`.
    pub open spec fn delegate(self, address: Seq<char>, period: u64, amount: u128, now: u64)
        -> LedgerModel {
        self.bond(
            address,
            self.stakes_with_more(address, self.tier(period).unwrap(), amount),
            now,
        )
    }

    /// Why `address` cannot take `amount` tokens out of the tier of
    /// `period` at `now`, if it cannot: the period is no tier; the address
    /// has not that much bonded there; or a flow's arithmetic would
    /// overflow.
    pub open spec fn unbond_error(self, address: Seq<char>, period: u64, amount: u128, now: u64)
        -> Option<ContractError> {
        match self.tier(period) {
            None => Some(ContractError::NoUnbondingPeriodFound { period }),
            Some(t) => if self.staker(address) is None || self.stakes_of(address)[t] < amount {
                Some(ContractError::InsufficientStake {  })
            } else if self.bond_fails(address, self.stakes_with_less(address, t, amount), now) {
                Some(ContractError::Overflow {  })
            } else {
                None
            },
        }
    }

    /// The ledger after `address` took `amount` tokens out of the tier of
    /// `period` at `now`.
    pub open spec fn unbond(self, address: Seq<char>, period: u64, amount: u128, now: u64)
        -> LedgerModel {
        self.bond(
            address,
            self.stakes_with_less(address, self.tier(period).unwrap(), amount),
            now,
        )
    }

    /// Why `address` cannot move `amount` tokens from the tier of `from` to
    /// the tier of `to` at `now`, if it cannot.
    pub open spec fn rebond_error(
        self,
        address: Seq<char>,
        amount: u128,
        from: u64,
        to: u64,
        now: u64,
    ) -> Option<ContractError> {
        if self.tier(from) is None {
            Some(ContractError::NoUnbondingPeriodFound { period: from })
        } else if self.tier(to) is None {
            Some(ContractError::NoUnbondingPeriodFound { period: to })
        } else {
            let a = self.tier(from).unwrap();
            let b = self.tier(to).unwrap();
            if self.staker(address) is None || self.stakes_of(address)[a] < amount {
                Some(ContractError::InsufficientStake {  })
            } else if self.stakes_with_less(address, a, amount)[b] + amount > u128::MAX {
                Some(ContractError::Overflow {  })
            } else if self.bond_fails(address, self.stakes_moved(address, a, b, amount), now) {
                Some(ContractError::Overflow {  })
            } else {
                None
            }
        }
    }

    /// The ledger after `address` moved `amount` tokens from the tier of
    /// `from` to the tier of `to` at `now`: every flow releases what is
    /// releasable and then takes the staker at the power of the new
    /// positions, in one step.
    pub open spec fn rebond(self, address: Seq<char>, amount: u128, from: u64, to: u64, now: u64)
        -> LedgerModel {
        self.bond(
            address,
            self.stakes_moved(
                address,
                self.tier(from).unwrap(),
                self.tier(to).unwrap(),
                amount,
            ),
            now,
        )
    }
}


impl LedgerModel {
    /// The ledger after every flow released what is releasable at `now`.
    pub open spec fn distribute(self, now: u64) -> LedgerModel {
        LedgerModel {
            flows: Seq::new(self.flows.len(), |f: int| self.flows[f].release(now)),
            ..self
        }
    }

    /// The release at `now` fails in some flow.
    pub open spec fn distribute_fails(self, now: u64) -> bool {
        exists|f: int| 0 <= f < self.flows.len() && (#[trigger] self.flows[f]).release_fails(now)
    }

    /// The address that receives what `owner` withdraws, where the call
    /// names no receiver: the address that the owner has chosen, or the
    /// owner.
    pub open spec fn delegated(self, owner: Seq<char>) -> Seq<char> {
        match self.staker(owner) {
            Some(s) => match self.stakers[s].delegated {
                Some(receiver) => receiver,
                None => owner,
            },
            None => owner,
        }
    }

    /// `sender` may withdraw for `owner`: it is the owner, or the address
    /// that the owner has chosen.
    pub open spec fn may_withdraw(self, sender: Seq<char>, owner: Seq<char>) -> bool {
        sender == owner || sender == self.delegated(owner)
    }

    /// The withdrawal of staker `s` at `now` fails in flow `f`.
    pub open spec fn withdraw_fails_in(self, f: int, s: int, now: u64) -> bool {
        ||| self.flows[f].release_fails(now)
        ||| self.flows[f].release(now).book.owed_overflows(s)
    }

    /// The withdrawal of staker `s` at `now` fails in some flow.
    pub open spec fn withdraw_fails(self, s: int, now: u64) -> bool {
        exists|f: int| 0 <= f < self.flows.len() && #[trigger] self.withdraw_fails_in(f, s, now)
    }

    /// The ledger after staker `s` withdrew from every flow at `now`: each
    /// flow releases what is releasable and then pays the staker all that
    /// the staker can withdraw.
    pub open spec fn withdraw(self, s: int, now: u64) -> LedgerModel {
        LedgerModel {
            flows: Seq::new(self.flows.len(), |f: int| self.flows[f].pay(now, s)),
            ..self
        }
    }

    /// What staker `s` is paid at `now` by the first `k` flows: the asset
    /// and the amount of each flow that pays something, in the flows'
    /// order.
    pub open spec fn payouts(self, s: int, now: u64, k: int) -> Seq<(AssetModel, u128)>
        decreases k,
    {
        if k <= 0 {
            Seq::empty()
        } else if self.flows[k - 1].payout(now, s) > 0 {
            self.payouts(s, now, k - 1).push(
                (self.flows[k - 1].asset, self.flows[k - 1].payout(now, s) as u128),
            )
        } else {
            self.payouts(s, now, k - 1)
        }
    }

    /// The ledger in which the withdrawals of `owner` go to `receiver`.
    pub open spec fn delegate_withdrawal(self, owner: Seq<char>, receiver: Seq<char>)
        -> LedgerModel {
        let joined = self.with_staker(owner);
        let s = self.staker_slot(owner);
        LedgerModel {
            stakers: joined.stakers.update(
                s,
                StakerModel { delegated: Some(receiver), ..joined.stakers[s] },
            ),
            ..joined
        }
    }
}

/// A release that does not fail keeps the ledger sound.
pub proof fn lemma_distribute_keeps_inv(ledger: LedgerModel, now: u64)
    requires
        ledger.inv(),
        ledger.min_bond >= 0,
        !ledger.distribute_fails(now),
    ensures
        ledger.distribute(now).inv(),
{
    let after = ledger.distribute(now);
    assert forall|f: int| 0 <= f < after.flows.len() implies #[trigger] after.flow_inv(f) by {
        assert(ledger.flow_inv(f));
        assert(!ledger.flows[f].release_fails(now));
        lemma_release_keeps_flow(ledger, f, now);
    }
}

/// A withdrawal that does not fail keeps the ledger sound.
pub proof fn lemma_withdraw_keeps_inv(ledger: LedgerModel, s: int, now: u64)
    requires
        ledger.inv(),
        ledger.min_bond >= 0,
        0 <= s < ledger.stakers.len(),
        !ledger.withdraw_fails(s, now),
    ensures
        ledger.withdraw(s, now).inv(),
{
    let after = ledger.withdraw(s, now);
    assert forall|f: int| 0 <= f < after.flows.len() implies #[trigger] after.flow_inv(f) by {
        assert(ledger.flow_inv(f));
        assert(!ledger.withdraw_fails_in(f, s, now));
        lemma_release_keeps_flow(ledger, f, now);
        lemma_withdraw_keeps_balance(ledger.flows[f].release(now).book, s);
        let flow = ledger.flows[f];
        let book = after.flows[f].book;
        assert forall|t: int| 0 <= t < after.stakers.len() implies (#[trigger] book.accounts[t]).power
            == after.power(f, after.stakers[t].stakes) by {
            assert(flow.book.accounts[t].power == ledger.power(f, ledger.stakers[t].stakes));
        }
    }
}

/// A choice of receiver keeps the ledger sound.
pub proof fn lemma_delegate_withdrawal_keeps_inv(
    ledger: LedgerModel,
    owner: Seq<char>,
    receiver: Seq<char>,
)
    requires
        ledger.inv(),
        ledger.min_bond >= 0,
        0 <= ledger.staker_slot(owner) < ledger.with_staker(owner).stakers.len(),
    ensures
        ledger.delegate_withdrawal(owner, receiver).inv(),
{
    let joined = ledger.with_staker(owner);
    if ledger.staker(owner) is None {
        lemma_register_keeps_inv(ledger, owner);
    }
    let s = ledger.staker_slot(owner);
    let after = ledger.delegate_withdrawal(owner, receiver);
    assert forall|t: int| 0 <= t < after.stakers.len() implies (#[trigger] after.stakers[t]).stakes.len()
        == after.periods.len() by {
        assert(after.stakers[t].stakes == joined.stakers[t].stakes);
    }
    assert forall|f: int| 0 <= f < after.flows.len() implies #[trigger] after.flow_inv(f) by {
        assert(joined.flow_inv(f));
        let book = after.flows[f].book;
        assert forall|t: int| 0 <= t < after.stakers.len() implies (#[trigger] book.accounts[t]).power
            == after.power(f, after.stakers[t].stakes) by {
            assert(after.stakers[t].stakes == joined.stakers[t].stakes);
            assert(joined.flows[f].book.accounts[t].power == joined.power(
                f,
                joined.stakers[t].stakes,
            ));
        }
    }
}


/// An optional name, or another where there is none.
pub open spec fn name_or(name: Option<Seq<char>>, other: Seq<char>) -> Seq<char> {
    match name {
        Some(n) => n,
        None => other,
    }
}

impl LedgerModel {
    /// Why `sender` cannot withdraw the rewards of `owner` at `now`, if it
    /// cannot: it is neither the owner nor the address that the owner has
    /// chosen; or a flow's arithmetic would overflow.
    pub open spec fn withdraw_error(self, sender: Seq<char>, owner: Seq<char>, now: u64) -> Option<
        ContractError,
    > {
        if !self.may_withdraw(sender, owner) {
            Some(ContractError::Unauthorized {  })
        } else if self.staker(owner) is Some && self.withdraw_fails(
            self.staker(owner).unwrap(),
            now,
        ) {
            Some(ContractError::Overflow {  })
        } else {
            None
        }
    }

    /// The ledger after the rewards of `owner` were withdrawn at `now`: as
    /// it was where the owner has never staked.
    pub open spec fn withdraw_rewards(self, owner: Seq<char>, now: u64) -> LedgerModel {
        match self.staker(owner) {
            Some(s) => self.withdraw(s, now),
            None => self,
        }
    }

    /// What a withdrawal of the rewards of `owner` at `now` pays.
    pub open spec fn rewards_paid(self, owner: Seq<char>, now: u64) -> Seq<(AssetModel, u128)> {
        match self.staker(owner) {
            Some(s) => self.payouts(s, now, self.flows.len() as int),
            None => Seq::empty(),
        }
    }
}


/// The unbonding periods that a rewards table names, in its order.
pub open spec fn rewards_periods(rewards: Seq<(u64, Decimal)>) -> Seq<u64> {
    Seq::new(rewards.len(), |i: int| rewards[i].0)
}

/// The multipliers that a rewards table gives, in its order.
pub open spec fn rewards_multipliers(rewards: Seq<(u64, Decimal)>) -> Seq<Decimal> {
    Seq::new(rewards.len(), |i: int| rewards[i].1)
}

impl LedgerModel {
    /// The accounts with which a flow with the given multipliers starts:
    /// each staker at the power of the staker's positions, with nothing
    /// earned and nothing withdrawn.
    pub open spec fn first_accounts(self, multipliers: Seq<Decimal>) -> Seq<AccountModel> {
        Seq::new(
            self.stakers.len(),
            |s: int|
                AccountModel {
                    power: power_of(
                        self.tokens_per_power,
                        self.min_bond,
                        self.stakers[s].stakes,
                        multipliers,
                    ),
                    correction: 0,
                    withdrawn: 0,
                },
        )
    }

    /// The powers of the stakers in a flow with the given multipliers cannot
    /// be computed, or added up, in 128 bits.
    pub open spec fn first_accounts_overflow(self, multipliers: Seq<Decimal>) -> bool {
        ||| exists|s: int|
            0 <= s < self.stakers.len() && power_overflows(
                self.tokens_per_power,
                self.min_bond,
                (#[trigger] self.stakers[s]).stakes,
                multipliers,
            )
        ||| exists|k: int|
            0 <= k <= self.stakers.len() && sum_power(
                #[trigger] self.first_accounts(multipliers).take(k),
            ) > u128::MAX
    }

    /// A new flow: nothing funded, nothing locked, nothing released, and the
    /// stakers at their powers.
    pub open spec fn first_flow(
        self,
        manager: Seq<char>,
        asset: AssetModel,
        multipliers: Seq<Decimal>,
    ) -> FlowModel {
        FlowModel {
            asset,
            manager,
            multipliers,
            curve: CurveModel::Constant { y: 0 },
            funded_total: 0,
            book: BookModel {
                totals: TotalsModel {
                    shares_per_point: 0,
                    shares_leftover: 0,
                    total_power: sum_power(self.first_accounts(multipliers)),
                    distributed_total: 0,
                    withdrawable_total: 0,
                },
                accounts: self.first_accounts(multipliers),
            },
        }
    }

    /// Why `sender` cannot create a flow that pays `asset` by the table
    /// `rewards`, if it cannot.
    pub open spec fn create_flow_error(
        self,
        sender: Seq<char>,
        asset: AssetModel,
        rewards: Seq<(u64, Decimal)>,
    ) -> Option<ContractError> {
        if self.admin != Some(sender) {
            Some(ContractError::Unauthorized {  })
        } else if asset == AssetModel::Token(self.staking_token) {
            Some(ContractError::InvalidAsset {  })
        } else if rewards_periods(rewards) != self.periods {
            Some(ContractError::InvalidRewards {  })
        } else if self.flows.len() >= self.max_distributions {
            Some(ContractError::TooManyDistributions { max: self.max_distributions as u32 })
        } else if self.flow(asset) is Some {
            Some(ContractError::DistributionAlreadyExists {  })
        } else if self.first_accounts_overflow(rewards_multipliers(rewards)) {
            Some(ContractError::Overflow {  })
        } else {
            None
        }
    }

    /// The ledger with one more flow, which pays `asset` by the table
    /// `rewards` and is managed by `manager`.
    pub open spec fn create_flow(
        self,
        manager: Seq<char>,
        asset: AssetModel,
        rewards: Seq<(u64, Decimal)>,
    ) -> LedgerModel {
        LedgerModel {
            flows: self.flows.push(self.first_flow(manager, asset, rewards_multipliers(rewards))),
            ..self
        }
    }

    /// Why `amount` units of `asset` cannot be handed to the flow that pays
    /// the asset, if they cannot.
    pub open spec fn deposit_error(self, asset: AssetModel, amount: u128) -> Option<ContractError> {
        match self.flow(asset) {
            None => Some(ContractError::NoDistributionFlow {  }),
            Some(f) => if self.flows[f].funded_total + amount > u128::MAX {
                Some(ContractError::Overflow {  })
            } else {
                None
            },
        }
    }

    /// The ledger after `amount` units of `asset` were handed to the flow
    /// that pays the asset, with no schedule: they are releasable at once.
    pub open spec fn deposit(self, asset: AssetModel, amount: u128) -> LedgerModel {
        let f = self.flow(asset).unwrap();
        LedgerModel {
            flows: self.flows.update(
                f,
                FlowModel { funded_total: self.flows[f].funded_total + amount, ..self.flows[f] },
            ),
            ..self
        }
    }
}

/// The first accounts of a flow have earned and withdrawn nothing.
pub proof fn lemma_first_accounts_balance(accounts: Seq<AccountModel>)
    requires
        forall|s: int|
            0 <= s < accounts.len() ==> (#[trigger] accounts[s]).correction == 0
                && accounts[s].withdrawn == 0,
    ensures
        crate::book::sum_earned(accounts, 0) == 0,
        crate::book::sum_withdrawn(accounts) == 0,
    decreases accounts.len(),
{
    if accounts.len() > 0 {
        let front = accounts.drop_last();
        assert forall|s: int| 0 <= s < front.len() implies (#[trigger] front[s]).correction == 0
            && front[s].withdrawn == 0 by {
            assert(front[s] == accounts[s]);
        }
        lemma_first_accounts_balance(front);
        assert(accounts.last().power * 0 == 0);
    }
}

/// A new flow keeps the ledger sound.
pub proof fn lemma_create_flow_keeps_inv(
    ledger: LedgerModel,
    manager: Seq<char>,
    asset: AssetModel,
    rewards: Seq<(u64, Decimal)>,
)
    requires
        ledger.inv(),
        ledger.min_bond >= 0,
        rewards_periods(rewards) == ledger.periods,
    ensures
        ledger.create_flow(manager, asset, rewards).inv(),
{
    let after = ledger.create_flow(manager, asset, rewards);
    let n = ledger.flows.len() as int;
    let multipliers = rewards_multipliers(rewards);
    assert(rewards_periods(rewards).len() == rewards.len());
    assert forall|f: int| 0 <= f < after.flows.len() implies #[trigger] after.flow_inv(f) by {
        if f < n {
            assert(ledger.flow_inv(f));
            assert(after.flows[f] == ledger.flows[f]);
        } else {
            let accounts = ledger.first_accounts(multipliers);
            lemma_first_accounts_balance(accounts);
            assert forall|s: int| 0 <= s < accounts.len() implies 0 <= (#[trigger] accounts[s]).power by {
                lemma_power_nonnegative(
                    ledger.tokens_per_power,
                    ledger.min_bond,
                    ledger.stakers[s].stakes,
                    multipliers,
                );
            }
            assert forall|s: int| 0 <= s < accounts.len() implies (#[trigger] accounts[s]).withdrawn
                * crate::book::SHARE <= accounts[s].earned(0) by {
                assert(accounts[s].power * 0 == 0);
            }
        }
    }
}

/// A deposit keeps the ledger sound.
pub proof fn lemma_deposit_keeps_inv(ledger: LedgerModel, asset: AssetModel, amount: u128)
    requires
        ledger.inv(),
        ledger.flow(asset) is Some,
        0 <= ledger.flow(asset).unwrap() < ledger.flows.len(),
    ensures
        ledger.deposit(asset, amount).inv(),
{
    let after = ledger.deposit(asset, amount);
    assert forall|f: int| 0 <= f < after.flows.len() implies #[trigger] after.flow_inv(f) by {
        assert(ledger.flow_inv(f));
    }
}


impl LedgerModel {
    /// Why `sender` cannot fund the flow of `asset` with `amount` units on
    /// the given schedule at `now`, as far as this shows before the
    /// schedule is added to the flow's own: the asset is the staking token;
    /// it has no flow; the sender does not manage the flow; the schedule is
    /// malformed; it does not start at the amount and end at nothing; or
    /// the release before the funding, the flow's funds, or the schedule
    /// moved to `now` would overflow.
    pub open spec fn fund_refusal(
        self,
        sender: Seq<char>,
        asset: AssetModel,
        amount: u128,
        schedule: CurveModel,
        now: u64,
    ) -> Option<ContractError> {
        if asset == AssetModel::Token(self.staking_token) {
            Some(ContractError::InvalidAsset {  })
        } else if self.flow(asset) is None {
            Some(ContractError::NoDistributionFlow {  })
        } else {
            let f = self.flow(asset).unwrap();
            if self.flows[f].manager != sender {
                Some(ContractError::Unauthorized {  })
            } else if schedule.validity() is Err {
                Some(ContractError::Curve { reason: schedule.validity()->Err_0 })
            } else if !schedule.bounds(0, amount) {
                Some(ContractError::InvalidRewards {  })
            } else if self.flows[f].release_fails(now) {
                Some(ContractError::Overflow {  })
            } else if self.flows[f].funded_total + amount > u128::MAX {
                Some(ContractError::Overflow {  })
            } else if schedule.shifted(now) is Err {
                Some(ContractError::Overflow {  })
            } else {
                None
            }
        }
    }

    /// The ledger after flow `f` released what was releasable at `now` and
    /// then took `amount` more units, with `curve` as its new schedule.
    pub open spec fn funded(self, f: int, amount: u128, curve: CurveModel, now: u64) -> LedgerModel {
        LedgerModel {
            flows: self.flows.update(
                f,
                FlowModel {
                    book: self.flows[f].release(now).book,
                    curve,
                    funded_total: self.flows[f].funded_total + amount,
                    ..self.flows[f]
                },
            ),
            ..self
        }
    }

    /// `r` and `after` are the outcome of a funding. Where nothing refuses
    /// it, the flow first releases what is releasable at `now`; the
    /// schedule is moved to start at `now` and added to the flow's own, so
    /// that what was funded before and is still locked stays locked; and
    /// the funding goes through exactly when that sum can be computed and
    /// never rises. A funding that fails changes nothing.
    pub open spec fn fund_outcome(
        self,
        after: LedgerModel,
        sender: Seq<char>,
        asset: AssetModel,
        amount: u128,
        schedule: CurveModel,
        now: u64,
        r: Result<(), ContractError>,
    ) -> bool {
        match self.fund_refusal(sender, asset, amount, schedule, now) {
            Some(e) => r == Err::<(), ContractError>(e) && after == self,
            None => {
                let f = self.flow(asset).unwrap();
                let moved = schedule.shifted(now).unwrap();
                let own = self.flows[f].curve;
                match r {
                    Ok(_) => {
                        &&& combination(own, moved, Ok(after.flows[f].curve))
                        &&& after.flows[f].curve.falls()
                        &&& after == self.funded(f, amount, after.flows[f].curve, now)
                    },
                    Err(e) => {
                        &&& after == self
                        &&& {
                            ||| e == (ContractError::Overflow {  }) && combination(
                                own,
                                moved,
                                Err(CurveError::Overflow),
                            )
                            ||| exists|sum: CurveModel|
                                #[trigger] combination(own, moved, Ok(sum))
                                    && sum.falling_validity() is Err && e
                                    == (ContractError::Curve {
                                    reason: sum.falling_validity()->Err_0,
                                })
                        }
                    },
                }
            },
        }
    }
}

/// A funding keeps the ledger sound.
pub proof fn lemma_fund_keeps_inv(
    ledger: LedgerModel,
    f: int,
    amount: u128,
    curve: CurveModel,
    now: u64,
)
    requires
        ledger.inv(),
        ledger.min_bond >= 0,
        0 <= f < ledger.flows.len(),
        !ledger.flows[f].release_fails(now),
        curve.falls(),
    ensures
        ledger.funded(f, amount, curve, now).inv(),
{
    let after = ledger.funded(f, amount, curve, now);
    assert forall|g: int| 0 <= g < after.flows.len() implies #[trigger] after.flow_inv(g) by {
        assert(ledger.flow_inv(g));
        if g == f {
            lemma_release_keeps_flow(ledger, f, now);
        }
    }
}


/// The sum of the first `k` shares of a mass delegation.
pub open spec fn shares_sum(shares: Seq<(Seq<char>, u128)>, k: int) -> int
    decreases k,
{
    if k <= 0 {
        0
    } else {
        shares_sum(shares, k - 1) + shares[k - 1].1
    }
}

impl LedgerModel {
    /// The ledger after the first `k` shares of a mass delegation were
    /// bonded, one after the other, or the error of the first share that
    /// cannot be bonded.
    pub open spec fn mass_delegate_upto(
        self,
        period: u64,
        shares: Seq<(Seq<char>, u128)>,
        now: u64,
        k: int,
    ) -> Result<LedgerModel, ContractError>
        decreases k,
    {
        if k <= 0 {
            Ok(self)
        } else {
            match self.mass_delegate_upto(period, shares, now, k - 1) {
                Err(e) => Err(e),
                Ok(ledger) => match ledger.delegate_error(
                    shares[k - 1].0,
                    period,
                    shares[k - 1].1,
                    now,
                ) {
                    Some(e) => Err(e),
                    None => Ok(ledger.delegate(shares[k - 1].0, period, shares[k - 1].1, now)),
                },
            }
        }
    }

    /// The outcome of a mass delegation of `amount` tokens for `period`, in
    /// the given shares: an error where the period is no tier or the shares
    /// add up to more than the amount; else what bonding the shares one
    /// after the other gives.
    pub open spec fn mass_delegate(
        self,
        amount: u128,
        period: u64,
        shares: Seq<(Seq<char>, u128)>,
        now: u64,
    ) -> Result<LedgerModel, ContractError> {
        if self.tier(period) is None {
            Err(ContractError::NoUnbondingPeriodFound { period })
        } else if shares_sum(shares, shares.len() as int) > amount {
            Err(ContractError::MassDelegateTooMuch {  })
        } else {
            self.mass_delegate_upto(period, shares, now, shares.len() as int)
        }
    }
}

/// A mass delegation that has failed at one share fails as a whole, with
/// the same error.
pub proof fn lemma_mass_delegate_stays_failed(
    ledger: LedgerModel,
    period: u64,
    shares: Seq<(Seq<char>, u128)>,
    now: u64,
    k: int,
    n: int,
)
    requires
        0 <= k <= n,
        ledger.mass_delegate_upto(period, shares, now, k) is Err,
    ensures
        ledger.mass_delegate_upto(period, shares, now, n) == ledger.mass_delegate_upto(
            period,
            shares,
            now,
            k,
        ),
    decreases n - k,
{
    if k < n {
        lemma_mass_delegate_stays_failed(ledger, period, shares, now, k, n - 1);
    }
}

/// The shares of a mass delegation never add up to less with one more.
pub proof fn lemma_shares_sum_grows(shares: Seq<(Seq<char>, u128)>, k: int, n: int)
    requires
        0 <= k <= n,
    ensures
        0 <= shares_sum(shares, k) <= shares_sum(shares, n),
    decreases n,
{
    if k < n {
        lemma_shares_sum_grows(shares, k, n - 1);
    } else if k > 0 {
        lemma_shares_sum_grows(shares, k - 1, n - 1);
    }
}


impl LedgerModel {
    /// What the staker with `address` can withdraw from flow `f` as the
    /// books stand: nothing where the address has never staked.
    pub open spec fn owed(self, f: int, address: Seq<char>) -> int {
        match self.staker(address) {
            Some(s) => self.flows[f].book.owed(s),
            None => 0,
        }
    }

    /// What the staker with `address` can withdraw cannot be computed for
    /// some flow.
    pub open spec fn owed_fails(self, address: Seq<char>) -> bool {
        self.staker(address) is Some && exists|f: int|
            0 <= f < self.flows.len() && (#[trigger] self.flows[f]).book.owed_overflows(
                self.staker(address).unwrap(),
            )
    }

    /// The power that the staker with `address` has in flow `f`: none where
    /// the address has never staked.
    pub open spec fn power_in(self, f: int, address: Seq<char>) -> int {
        match self.staker(address) {
            Some(s) => self.flows[f].book.accounts[s].power,
            None => 0,
        }
    }

    /// The tokens that `address` has bonded in tier `t`.
    pub open spec fn staked(self, address: Seq<char>, t: int) -> u128 {
        self.stakes_of(address)[t]
    }
}


impl LedgerModel {
    /// The power that the first `k` stakers have together in tier `t` of
    /// flow `f`.
    pub open spec fn tier_total(self, f: int, t: int, k: int) -> int
        decreases k,
    {
        if k <= 0 {
            0
        } else {
            self.tier_total(f, t, k - 1) + tier_power(
                self.tokens_per_power,
                self.min_bond,
                self.stakers[k - 1].stakes[t] as int,
                self.flows[f].multipliers[t],
            )
        }
    }

    /// The power of tier `t` in flow `f` cannot be computed, or added up,
    /// in 128 bits.
    pub open spec fn tier_total_fails(self, f: int, t: int) -> bool {
        ||| exists|s: int|
            0 <= s < self.stakers.len() && tier_power_result(
                self.tokens_per_power,
                self.min_bond,
                (#[trigger] self.stakers[s]).stakes[t] as int,
                self.flows[f].multipliers[t],
            ) is Err
        ||| exists|k: int|
            0 <= k <= self.stakers.len() && #[trigger] self.tier_total(f, t, k) > u128::MAX
    }

    /// Tier `t` has power in flow `f`.
    pub open spec fn tier_counts(self, f: int, t: int) -> bool {
        self.tier_total(f, t, self.stakers.len() as int) > 0
            && self.flows[f].book.totals.total_power > 0
    }

    /// The yearly reward of one token bonded in tier `t`, in the asset of
    /// flow `f`, as projected at `now`: nothing where the tier has no power
    /// in the flow.
    pub open spec fn rate(self, f: int, t: int, now: u64) -> Option<Decimal> {
        if self.tier_counts(f, t) {
            token_rate(
                annual_payout(self.flows[f].curve, now).unwrap(),
                self.flows[f].book.totals.total_power as u128,
                self.flows[f].multipliers[t],
                self.tokens_per_power as u128,
            )
        } else {
            None
        }
    }

    /// The yearly reward of a token in tier `t` of flow `f` cannot be
    /// computed in 128 bits.
    pub open spec fn rate_fails(self, f: int, t: int, now: u64) -> bool {
        ||| self.tier_total_fails(f, t)
        ||| self.tier_counts(f, t) && {
            ||| annual_payout(self.flows[f].curve, now) is None
            ||| token_rate(
                annual_payout(self.flows[f].curve, now).unwrap(),
                self.flows[f].book.totals.total_power as u128,
                self.flows[f].multipliers[t],
                self.tokens_per_power as u128,
            ) is None
        }
    }

    /// The yearly rewards of a token in tier `t`, one for each flow.
    pub open spec fn rates(self, t: int, now: u64) -> Seq<(AssetModel, Option<Decimal>)> {
        Seq::new(self.flows.len(), |f: int| (self.flows[f].asset, self.rate(f, t, now)))
    }

    /// The yearly reward of a token cannot be computed for some flow in
    /// tier `t`.
    pub open spec fn rates_fail(self, t: int, now: u64) -> bool {
        exists|f: int| 0 <= f < self.flows.len() && #[trigger] self.rate_fails(f, t, now)
    }
}

} // verus!
