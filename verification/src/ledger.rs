//! The staking ledger: who has bonded how much in which tier, and the
//! distribution flows that pay the stakers by their power.

use vstd::prelude::*;
use crate::apr::{annualized_payout, rate_per_token, AnnualizedReward};
use crate::asset::{AssetInfo, AssetInfoValidated, AssetModel, AssetValidated};
use crate::book::{Account, BookModel, FlowBook, Totals};
use crate::curve::{Curve, CurveExt};
use crate::error::ContractError;
use crate::ledger_model::{
    lemma_mass_delegate_stays_failed,
    lemma_shares_sum_grows,
    shares_sum,
    lemma_fund_keeps_inv,
    lemma_create_flow_keeps_inv,
    lemma_deposit_keeps_inv,
    rewards_multipliers,
    rewards_periods,
    lemma_delegate_withdrawal_keeps_inv,
    lemma_distribute_keeps_inv,
    lemma_withdraw_keeps_inv,
    lemma_register_keeps_inv,
    lemma_release_keeps_flow,
    lemma_restake_keeps_inv,
    outcome,
    FlowModel,
    LedgerModel,
    StakerModel,
};
use crate::lookup::{find_period, lemma_absent, lemma_first_is_unique};
use crate::math::Decimal;
use crate::stake::{calc_power, rewards_power, Config};
use crate::text::{copy_list, copy_name, is_text, same_text, text_view};

verus! {

/// A staker: an address, the amount bonded in each tier, and the address
/// that receives the staker's withdrawals where it is not the staker.
#[derive(Debug)]
pub struct Staker {
    pub address: String,
    pub stakes: Vec<u128>,
    pub delegated: Option<String>,
}

/// A distribution flow.
#[derive(Debug)]
pub struct Flow {
    /// The asset that the flow pays.
    pub asset: AssetInfoValidated,
    /// Who may fund the flow.
    pub manager: String,
    /// The multiplier of each tier.
    pub multipliers: Vec<Decimal>,
    /// What is still locked, as a function of time.
    pub curve: Curve,
    /// The units ever funded.
    pub funded_total: u128,
    /// The accounts of the stakers.
    pub book: FlowBook,
}

/// The staking ledger.
#[derive(Debug)]
pub struct Ledger {
    config: Config,
    stakers: Vec<Staker>,
    flows: Vec<Flow>,
}

impl View for Staker {
    type V = StakerModel;

    open spec fn view(&self) -> StakerModel {
        StakerModel {
            address: self.address@,
            stakes: self.stakes@,
            delegated: text_view(self.delegated),
        }
    }
}

impl View for Flow {
    type V = FlowModel;

    open spec fn view(&self) -> FlowModel {
        FlowModel {
            asset: self.asset@,
            manager: self.manager@,
            multipliers: self.multipliers@,
            curve: self.curve@,
            funded_total: self.funded_total as int,
            book: self.book@,
        }
    }
}

/// The stakers of a ledger as mathematical objects.
pub open spec fn stakers_view(stakers: Seq<Staker>) -> Seq<StakerModel> {
    Seq::new(stakers.len(), |i: int| stakers[i]@)
}

/// The flows of a ledger as mathematical objects.
pub open spec fn flows_view(flows: Seq<Flow>) -> Seq<FlowModel> {
    Seq::new(flows.len(), |i: int| flows[i]@)
}

impl View for Ledger {
    type V = LedgerModel;

    closed spec fn view(&self) -> LedgerModel {
        LedgerModel {
            tokens_per_power: self.config.tokens_per_power as int,
            min_bond: self.config.min_bond as int,
            periods: self.config.unbonding_periods@,
            max_distributions: self.config.max_distributions as int,
            admin: text_view(self.config.admin),
            unbonder: text_view(self.config.unbonder),
            staking_token: self.config.cw20_contract@,
            stakers: stakers_view(self.stakers@),
            flows: flows_view(self.flows@),
        }
    }
}

impl Ledger {
    /// The ledger is sound.
    pub open spec fn inv(&self) -> bool {
        self@.inv()
    }

    /// A ledger without stakers and without flows.
    ///
    /// Fails with a division by zero exactly when no tokens make a point of
    /// power.
    pub fn new(config: Config) -> (r: Result<Ledger, ContractError>)
        ensures
            r is Ok <==> config.tokens_per_power > 0,
            r is Err ==> r matches Err(ContractError::DivideByZero {  }),
            r matches Ok(ledger) ==> {
                &&& ledger.inv()
                &&& ledger@.stakers.len() == 0
                &&& ledger@.flows.len() == 0
                &&& ledger@.tokens_per_power == config.tokens_per_power
                &&& ledger@.min_bond == config.min_bond
                &&& ledger@.periods == config.unbonding_periods@
                &&& ledger@.max_distributions == config.max_distributions
                &&& ledger@.admin == text_view(config.admin)
                &&& ledger@.unbonder == text_view(config.unbonder)
                &&& ledger@.staking_token == config.cw20_contract@
            },
    {
        if config.tokens_per_power == 0 {
            return Err(ContractError::DivideByZero {  });
        }
        Ok(Ledger::with_config(config))
    }

    /// A ledger without stakers and without flows, with settings in which
    /// some tokens make a point of power.
    pub fn with_config(config: Config) -> (ledger: Ledger)
        requires
            config.tokens_per_power > 0,
        ensures
            ledger.inv(),
            ledger@.stakers.len() == 0,
            ledger@.flows.len() == 0,
            ledger@.tokens_per_power == config.tokens_per_power,
            ledger@.min_bond == config.min_bond,
            ledger@.periods == config.unbonding_periods@,
            ledger@.max_distributions == config.max_distributions,
            ledger@.admin == text_view(config.admin),
            ledger@.unbonder == text_view(config.unbonder),
            ledger@.staking_token == config.cw20_contract@,
    {
        Ledger { config, stakers: Vec::new(), flows: Vec::new() }
    }

    /// The index of the staker with `address`.
    pub fn find_staker(&self, address: &String) -> (r: Option<usize>)
        ensures
            match r {
                Some(s) => self@.staker(address@) == Some(s as int) && s < self@.stakers.len(),
                None => self@.staker(address@) == None::<int>,
            },
    {
        let n: usize = self.stakers.len();
        let mut i: usize = 0;
        while i < n
            invariant
                n == self.stakers@.len(),
                0 <= i <= n,
                forall|j: int| 0 <= j < i ==> self@.addresses()[j] != address@,
            decreases n - i,
        {
            if same_text(&self.stakers[i].address, address) {
                proof {
                    lemma_first_is_unique(self@.addresses(), i as int, address@);
                }
                return Some(i);
            }
            i = i + 1;
        }
        proof {
            lemma_absent(self@.addresses(), address@);
        }
        None
    }

    /// The index of the flow that pays `asset`.
    pub fn find_flow(&self, asset: &AssetInfoValidated) -> (r: Option<usize>)
        ensures
            match r {
                Some(f) => self@.flow(asset@) == Some(f as int) && f < self@.flows.len(),
                None => self@.flow(asset@) == None::<int>,
            },
    {
        let n: usize = self.flows.len();
        let mut i: usize = 0;
        while i < n
            invariant
                n == self.flows@.len(),
                0 <= i <= n,
                forall|j: int| 0 <= j < i ==> self@.assets()[j] != asset@,
            decreases n - i,
        {
            if self.flows[i].asset.same(asset) {
                proof {
                    lemma_first_is_unique(self@.assets(), i as int, asset@);
                }
                return Some(i);
            }
            i = i + 1;
        }
        proof {
            lemma_absent(self@.assets(), asset@);
        }
        None
    }
}


impl Flow {
    /// The flow is sound by itself: its book balances, its schedule never
    /// rises, and it has released no more than was funded.
    pub open spec fn sound(&self) -> bool {
        &&& self@.book.inv()
        &&& self@.curve.falls()
        &&& self@.book.totals.distributed_total <= self@.funded_total
    }

    /// The totals of the flow after all that is releasable at `now` was
    /// released; `None` exactly when the release fails.
    pub fn released_totals(&self, now: u64) -> (r: Option<Totals>)
        requires
            self.sound(),
        ensures
            r is Some <==> !self@.release_fails(now),
            r is Some ==> r.unwrap()@ == self@.release(now).book.totals,
    {
        proof {
            crate::curve::lemma_locked_nonnegative(self@.curve, now as int);
        }
        let locked: u128 = match self.curve.value(now) {
            Ok(v) => v,
            Err(_) => {
                return None;
            },
        };
        let undistributed: u128 = self.funded_total - self.book.totals.distributed_total;
        let amount: u128 = match undistributed.checked_sub(locked) {
            Some(v) => v,
            None => {
                return None;
            },
        };
        proof {
            crate::book::lemma_release_keeps_balance(self@.book, amount as int);
        }
        self.book.totals.released(amount)
    }
}

/// What an operation is to write into each flow: the flow's totals, and the
/// account of the staker that the operation is about.
pub type Plans = Vec<(Totals, Account)>;

impl Ledger {
    /// Computes, for each flow, the totals and the account of the staker in
    /// `slot` after a release at `now` and a change of the staker's
    /// positions to `stakes`. Nothing is written. `None` exactly when the
    /// change fails in some flow.
    fn plan_restake(&self, slot: usize, stakes: &Vec<u128>, now: u64) -> (r: Option<Plans>)
        requires
            self.inv(),
            stakes@.len() == self@.periods.len(),
            slot <= self@.stakers.len(),
        ensures
            r is Some <==> forall|f: int|
                0 <= f < self@.flows.len() ==> !#[trigger] self.plan_fails_in(f, slot, stakes@, now),
            r matches Some(plans) ==> {
                &&& plans@.len() == self@.flows.len()
                &&& forall|f: int|
                    0 <= f < self@.flows.len() ==> {
                        &&& (#[trigger] plans@[f]).0@ == self.planned(
                            f,
                            slot,
                            stakes@,
                            now,
                        ).book.totals
                        &&& plans@[f].1@ == self.planned(f, slot, stakes@, now).book.accounts[slot as int]
                    }
            },
    {
        let n: usize = self.flows.len();
        let mut plans: Plans = Vec::new();
        let mut f: usize = 0;
        while f < n
            invariant
                self.inv(),
                stakes@.len() == self@.periods.len(),
                slot <= self@.stakers.len(),
                n == self@.flows.len(),
                n == self.flows@.len(),
                0 <= f <= n,
                plans@.len() == f,
                forall|g: int| 0 <= g < f ==> !#[trigger] self.plan_fails_in(g, slot, stakes@, now),
                forall|g: int|
                    0 <= g < f ==> {
                        &&& (#[trigger] plans@[g]).0@ == self.planned(
                            g,
                            slot,
                            stakes@,
                            now,
                        ).book.totals
                        &&& plans@[g].1@ == self.planned(g, slot, stakes@, now).book.accounts[slot as int]
                    },
            decreases n - f,
        {
            let flow: &Flow = &self.flows[f];
            proof {
                assert(self@.flow_inv(f as int));
                assert(self@.flows[f as int] == flow@);
            }
            let power: u128 = match rewards_power(&self.config, stakes, &flow.multipliers) {
                Ok(v) => v,
                Err(_) => {
                    assert(self.plan_fails_in(f as int, slot, stakes@, now));
                    return None;
                },
            };
            let released: Totals = match flow.released_totals(now) {
                Some(v) => v,
                None => {
                    assert(self.plan_fails_in(f as int, slot, stakes@, now));
                    return None;
                },
            };
            let account: Account = if slot < flow.book.len() {
                flow.book.account(slot)
            } else {
                Account::fresh()
            };
            proof {
                if slot < self@.stakers.len() {
                    crate::book::lemma_power_within_total(flow@.book.accounts, slot as int);
                }
                lemma_release_keeps_flow(self@, f as int, now);
            }
            let moved: Account = match account.repowered(released.shares_per_point, power) {
                Some(v) => v,
                None => {
                    assert(self.plan_fails_in(f as int, slot, stakes@, now));
                    return None;
                },
            };
            let totals: Totals = match released.repowered(account, power) {
                Some(v) => v,
                None => {
                    assert(self.plan_fails_in(f as int, slot, stakes@, now));
                    return None;
                },
            };
            plans.push((totals, moved));
            f = f + 1;
        }
        Some(plans)
    }

    /// Flow `f` after a release at `now` and a change of the staker in
    /// `slot` to positions of `stakes`.
    pub closed spec fn planned(&self, f: int, slot: usize, stakes: Seq<u128>, now: u64) -> FlowModel {
        self@.flow_for(f, slot as int).settle(now, slot as int, self@.power(f, stakes))
    }

    /// The change of the staker in `slot` to `stakes` at `now` fails in flow
    /// `f`.
    pub closed spec fn plan_fails_in(&self, f: int, slot: usize, stakes: Seq<u128>, now: u64) -> bool {
        ||| self@.power_fails(f, stakes)
        ||| self@.flows[f].release_fails(now)
        ||| self@.flow_for(f, slot as int).release(now).book.change_power_overflows(
            slot as int,
            self@.power(f, stakes),
        )
    }
}


/// The book of a flow after the totals and the account of a plan were
/// written into it: over the account in `slot`, or as one more account where
/// the book has none in `slot`.
pub open spec fn book_with(book: BookModel, slot: int, totals: Totals, account: Account) -> BookModel {
    BookModel {
        totals: totals@,
        accounts: if slot < book.accounts.len() {
            book.accounts.update(slot, account@)
        } else {
            book.accounts.push(account@)
        },
    }
}

impl Ledger {
    /// Writes into each flow the totals and the account that were planned
    /// for it.
    fn write_plans(&mut self, slot: usize, plans: &Plans)
        requires
            plans@.len() == old(self).flows@.len(),
        ensures
            final(self).config == old(self).config,
            final(self).stakers == old(self).stakers,
            final(self).flows@.len() == old(self).flows@.len(),
            forall|f: int|
                0 <= f < old(self).flows@.len() ==> (#[trigger] final(self).flows@[f])@
                    == (FlowModel {
                    book: book_with(
                        old(self).flows@[f]@.book,
                        slot as int,
                        plans@[f].0,
                        plans@[f].1,
                    ),
                    ..old(self).flows@[f]@
                }),
    {
        let n: usize = self.flows.len();
        let mut f: usize = 0;
        while f < n
            invariant
                n == self.flows@.len(),
                n == old(self).flows@.len(),
                plans@.len() == n,
                0 <= f <= n,
                self.config == old(self).config,
                self.stakers == old(self).stakers,
                forall|g: int| f <= g < n ==> self.flows@[g] == old(self).flows@[g],
                forall|g: int|
                    0 <= g < f ==> (#[trigger] self.flows@[g])@ == (FlowModel {
                        book: book_with(
                            old(self).flows@[g]@.book,
                            slot as int,
                            plans@[g].0,
                            plans@[g].1,
                        ),
                        ..old(self).flows@[g]@
                    }),
            decreases n - f,
        {
            let plan: (Totals, Account) = plans[f];
            if slot < self.flows[f].book.len() {
                self.flows[f].book.commit(plan.0, slot, plan.1);
            } else {
                self.flows[f].book.enroll(plan.0, plan.1);
            }
            f = f + 1;
        }
    }
}


/// What a change of positions has overwritten: enough to take the change
/// back.
struct Undo {
    /// The index of the staker.
    slot: usize,
    /// Whether the change has registered the staker.
    fresh: bool,
    /// The positions before the change, of a staker that was registered.
    stakes: Vec<u128>,
    /// For each flow, the totals before the change, and the account of a
    /// staker that was registered.
    plans: Plans,
}

impl Undo {
    /// The record holds what the ledger `before` held for `address`.
    closed spec fn records(self, before: LedgerModel, address: Seq<char>) -> bool {
        &&& self.slot == before.staker_slot(address)
        &&& self.fresh == (before.staker(address) is None)
        &&& self.slot <= before.stakers.len()
        &&& self.fresh == (self.slot == before.stakers.len())
        &&& !self.fresh ==> self.stakes@ == before.stakers[self.slot as int].stakes
        &&& self.plans@.len() == before.flows.len()
        &&& forall|f: int|
            0 <= f < before.flows.len() ==> (#[trigger] self.plans@[f]).0@
                == before.flows[f].book.totals && (!self.fresh ==> self.plans@[f].1@
                == before.flows[f].book.accounts[self.slot as int])
    }
}

impl Ledger {
    /// For each flow, its totals and the account of the staker in `slot`,
    /// as they stand; for a slot that is not taken, an account without
    /// power.
    fn snapshot(&self, slot: usize) -> (r: Plans)
        ensures
            r@.len() == self.flows@.len(),
            forall|f: int|
                0 <= f < self.flows@.len() ==> (#[trigger] r@[f]).0 == self.flows@[f].book.totals
                    && (slot < self.flows@[f].book.accounts@.len() ==> r@[f].1
                    == self.flows@[f].book.accounts@[slot as int]),
    {
        let n: usize = self.flows.len();
        let mut plans: Plans = Vec::new();
        let mut f: usize = 0;
        while f < n
            invariant
                n == self.flows@.len(),
                0 <= f <= n,
                plans@.len() == f,
                forall|g: int|
                    0 <= g < f ==> (#[trigger] plans@[g]).0 == self.flows@[g].book.totals && (slot
                        < self.flows@[g].book.accounts@.len() ==> plans@[g].1
                        == self.flows@[g].book.accounts@[slot as int]),
            decreases n - f,
        {
            let flow: &Flow = &self.flows[f];
            let account: Account = if slot < flow.book.len() {
                flow.book.account(slot)
            } else {
                Account::fresh()
            };
            plans.push((flow.book.totals, account));
            f = f + 1;
        }
        plans
    }

    /// Takes the last account of every flow away and writes the totals of
    /// `plans`.
    fn dismiss_last(&mut self, plans: &Plans)
        requires
            plans@.len() == old(self).flows@.len(),
            forall|f: int|
                0 <= f < old(self).flows@.len() ==> (#[trigger] old(
                    self,
                ).flows@[f])@.book.accounts.len() > 0,
        ensures
            final(self).config == old(self).config,
            final(self).stakers == old(self).stakers,
            final(self).flows@.len() == old(self).flows@.len(),
            forall|f: int|
                0 <= f < old(self).flows@.len() ==> (#[trigger] final(self).flows@[f])@
                    == (FlowModel {
                    book: BookModel {
                        totals: plans@[f].0@,
                        accounts: old(self).flows@[f]@.book.accounts.drop_last(),
                    },
                    ..old(self).flows@[f]@
                }),
    {
        let n: usize = self.flows.len();
        let mut f: usize = 0;
        while f < n
            invariant
                n == self.flows@.len(),
                n == old(self).flows@.len(),
                plans@.len() == n,
                0 <= f <= n,
                self.config == old(self).config,
                self.stakers == old(self).stakers,
                forall|g: int|
                    0 <= g < n ==> (#[trigger] old(self).flows@[g])@.book.accounts.len() > 0,
                forall|g: int| f <= g < n ==> self.flows@[g] == old(self).flows@[g],
                forall|g: int|
                    0 <= g < f ==> (#[trigger] self.flows@[g])@ == (FlowModel {
                        book: BookModel {
                            totals: plans@[g].0@,
                            accounts: old(self).flows@[g]@.book.accounts.drop_last(),
                        },
                        ..old(self).flows@[g]@
                    }),
            decreases n - f,
        {
            assert(old(self).flows@[f as int]@.book.accounts.len() > 0);
            let totals: Totals = plans[f].0;
            self.flows[f].book.dismiss(totals);
            f = f + 1;
        }
    }

    /// Takes back a change of positions that `undo` records: the ledger is
    /// again what it was before the change.
    fn undo(
        &mut self,
        undo: Undo,
        Ghost(before): Ghost<LedgerModel>,
        Ghost(address): Ghost<Seq<char>>,
        Ghost(stakes): Ghost<Seq<u128>>,
        Ghost(now): Ghost<u64>,
    )
        requires
            before.inv(),
            undo.records(before, address),
            old(self)@ == before.bond(address, stakes, now),
        ensures
            final(self)@ == before,
    {
        let slot: usize = undo.slot;
        proof {
            let changed = before.bond(address, stakes, now);
            assert(changed.flows.len() == before.flows.len());
            assert(self@.flows.len() == self.flows@.len());
            assert(self.flows@.len() == before.flows.len());
            assert(self@.stakers.len() == self.stakers@.len());
            assert(changed.stakers.len() == before.with_staker(address).stakers.len());
            assert forall|f: int| 0 <= f < before.flows.len() implies (#[trigger] self.flows@[f])@.book.accounts.len()
                == before.with_staker(address).stakers.len() by {
                assert(before.flow_inv(f));
                assert(self@.flows[f] == self.flows@[f]@);
            }
        }
        if undo.fresh {
            self.dismiss_last(&undo.plans);
            self.stakers.pop();
        } else {
            self.write_plans(slot, &undo.plans);
            self.stakers[slot].stakes = undo.stakes;
        }
        proof {
            let after = self@;
            let changed = before.bond(address, stakes, now);
            assert forall|t: int| 0 <= t < before.stakers.len() implies after.stakers[t]
                == before.stakers[t] by {
                assert(old(self)@.stakers[t] == old(self).stakers@[t]@);
                assert(after.stakers[t] == self.stakers@[t]@);
                if t != slot {
                    assert(changed.stakers[t] == before.stakers[t]);
                }
            }
            assert(after.stakers =~= before.stakers);
            assert forall|f: int| 0 <= f < after.flows.len() implies after.flows[f]
                == before.flows[f] by {
                assert(before.flow_inv(f));
                assert(old(self)@.flows[f] == old(self).flows@[f]@);
                assert(after.flows[f].book.accounts =~= before.flows[f].book.accounts);
            }
            assert(after.flows =~= before.flows);
        }
    }
}

impl Ledger {
    /// Changes the positions of the staker with `address` to `stakes` at
    /// `now`, registering the staker where the address is new. `slot` is the
    /// staker's index: that of the address, or the next free one.
    ///
    /// Fails, and changes nothing, exactly when the change fails in some
    /// flow.
    fn restake(&mut self, slot: usize, address: &String, stakes: Vec<u128>, now: u64) -> (r: Result<
        Undo,
        ContractError,
    >)
        requires
            old(self).inv(),
            stakes@.len() == old(self)@.periods.len(),
            slot == old(self)@.staker_slot(address@),
            slot <= old(self)@.stakers.len(),
            slot < old(self)@.stakers.len() <==> old(self)@.staker(address@) is Some,
        ensures
            r is Ok <==> !old(self)@.bond_fails(address@, stakes@, now),
            r matches Ok(undo) ==> undo.records(old(self)@, address@),
            r is Ok ==> final(self)@ == old(self)@.bond(address@, stakes@, now),
            r matches Err(e) ==> e == (ContractError::Overflow {  }) && *final(self) == *old(
                self,
            ),
            final(self).inv(),
    {
        let ghost before = self@;
        let ghost joined = before.with_staker(address@);
        proof {
            if slot == before.stakers.len() {
                lemma_register_keeps_inv(before, address@);
            }
            assert forall|f: int| 0 <= f < before.flows.len() implies (self.plan_fails_in(
                f,
                slot,
                stakes@,
                now,
            ) <==> #[trigger] joined.restake_fails_in(f, slot as int, stakes@, now)) by {
                assert(joined.flows[f] == before.flow_for(f, slot as int));
            }
        }
        let plans: Plans = match self.plan_restake(slot, &stakes, now) {
            Some(v) => v,
            None => {
                proof {
                    let f = choose|f: int|
                        0 <= f < before.flows.len() && #[trigger] self.plan_fails_in(
                            f,
                            slot,
                            stakes@,
                            now,
                        );
                    assert(joined.restake_fails_in(f, slot as int, stakes@, now));
                }
                return Err(ContractError::Overflow {  });
            },
        };
        proof {
            assert(!joined.restake_fails(slot as int, stakes@, now));
            lemma_restake_keeps_inv(joined, slot as int, stakes@, now);
        }
        let fresh: bool = slot >= self.stakers.len();
        let undo = Undo {
            slot,
            fresh,
            stakes: if fresh {
                Vec::new()
            } else {
                copy_list(&self.stakers[slot].stakes)
            },
            plans: self.snapshot(slot),
        };
        proof {
            assert forall|f: int| 0 <= f < before.flows.len() implies (#[trigger] undo.plans@[f]).0@
                == before.flows[f].book.totals && (!fresh ==> undo.plans@[f].1@
                == before.flows[f].book.accounts[slot as int]) by {
                assert(before.flow_inv(f));
                assert(before.flows[f] == self.flows@[f]@);
            }
            if !fresh {
                assert(before.stakers[slot as int] == self.stakers@[slot as int]@);
            }
        }
        self.write_plans(slot, &plans);
        if slot < self.stakers.len() {
            self.stakers[slot].stakes = stakes;
        } else {
            self.stakers.push(Staker { address: address.clone(), stakes, delegated: None });
        }
        proof {
            let after = self@;
            let target = before.bond(address@, stakes@, now);
            assert(after.stakers =~= target.stakers);
            assert forall|f: int| 0 <= f < after.flows.len() implies after.flows[f]
                == target.flows[f] by {
                assert(before.flow_inv(f));
                assert(joined.flows[f] == before.flow_for(f, slot as int));
                let planned = old(self).planned(f, slot, stakes@, now);
                assert(after.flows[f].book.accounts =~= planned.book.accounts);
            }
            assert(after.flows =~= target.flows);
        }
        Ok(undo)
    }
}


impl Ledger {
    /// The index of the staker with `address`, or the next free index, and a
    /// copy of the staker's positions: without tokens for a new address.
    fn positions(&self, address: &String) -> (r: (usize, Vec<u128>))
        requires
            self.inv(),
        ensures
            r.0 == self@.staker_slot(address@),
            r.0 <= self@.stakers.len(),
            r.0 < self@.stakers.len() <==> self@.staker(address@) is Some,
            r.1@ == self@.stakes_of(address@),
            r.1@.len() == self@.periods.len(),
    {
        let n: usize = self.config.unbonding_periods.len();
        let mut stakes: Vec<u128> = Vec::new();
        match self.find_staker(address) {
            Some(s) => {
                let mut i: usize = 0;
                while i < n
                    invariant
                        s < self.stakers@.len(),
                        n == self.stakers@[s as int].stakes@.len(),
                        0 <= i <= n,
                        stakes@ == self.stakers@[s as int].stakes@.take(i as int),
                    decreases n - i,
                {
                    stakes.push(self.stakers[s].stakes[i]);
                    assert(stakes@ =~= self.stakers@[s as int].stakes@.take(i + 1));
                    i = i + 1;
                }
                assert(self.stakers@[s as int].stakes@.take(n as int)
                    == self.stakers@[s as int].stakes@);
                assert(self@.stakers[s as int].stakes == self.stakers@[s as int].stakes@);
                (s, stakes)
            },
            None => {
                let mut i: usize = 0;
                while i < n
                    invariant
                        0 <= i <= n,
                        stakes@ == Seq::new(i as nat, |k: int| 0u128),
                    decreases n - i,
                {
                    stakes.push(0);
                    assert(stakes@ =~= Seq::new((i + 1) as nat, |k: int| 0u128));
                    i = i + 1;
                }
                (self.stakers.len(), stakes)
            },
        }
    }

    /// Bonds `amount` more tokens of `address` for `period` at `now`. Every
    /// flow first releases what is releasable and then takes the staker at
    /// the new power; an address that has never staked is registered.
    ///
    /// Fails, and changes nothing, exactly as `delegate_error` says.
    pub fn delegate(&mut self, address: &str, period: u64, amount: u128, now: u64) -> (r: Result<
        (),
        ContractError,
    >)
        requires
            old(self).inv(),
        ensures
            r == outcome(old(self)@.delegate_error(address@, period, amount, now)),
            r is Ok ==> final(self)@ == old(self)@.delegate(address@, period, amount, now),
            r is Err ==> final(self)@ == old(self)@,
            final(self).inv(),
    {
        match self.delegate_undoable(address, period, amount, now) {
            Ok(_) => Ok(()),
            Err(e) => Err(e),
        }
    }

    /// Bonds as `delegate` does, and returns the record by which the
    /// bonding can be taken back.
    fn delegate_undoable(&mut self, address: &str, period: u64, amount: u128, now: u64) -> (r: Result<
        Undo,
        ContractError,
    >)
        requires
            old(self).inv(),
        ensures
            r is Err <==> old(self)@.delegate_error(address@, period, amount, now) is Some,
            r matches Err(e) ==> Some(e) == old(self)@.delegate_error(
                address@,
                period,
                amount,
                now,
            ) && final(self)@ == old(self)@,
            r matches Ok(undo) ==> undo.records(old(self)@, address@) && final(self)@ == old(
                self,
            )@.delegate(address@, period, amount, now),
            final(self).inv(),
    {
        let t: usize = match find_period(&self.config.unbonding_periods, period) {
            Some(t) => t,
            None => {
                return Err(ContractError::NoUnbondingPeriodFound { period });
            },
        };
        let name: String = address.to_owned();
        let (slot, mut stakes) = self.positions(&name);
        let stake: u128 = match stakes[t].checked_add(amount) {
            Some(v) => v,
            None => {
                return Err(ContractError::Overflow {  });
            },
        };
        stakes.set(t, stake);
        self.restake(slot, &name, stakes, now)
    }

    /// Takes `amount` tokens of `address` out of the tier of `period` at
    /// `now`. Every flow first releases what is releasable and then takes
    /// the staker at the new power, so that what the staker has earned with
    /// the tokens stays with the staker.
    ///
    /// Fails, and changes nothing, exactly as `unbond_error` says.
    pub fn unbond(&mut self, address: &str, period: u64, amount: u128, now: u64) -> (r: Result<
        (),
        ContractError,
    >)
        requires
            old(self).inv(),
        ensures
            r == outcome(old(self)@.unbond_error(address@, period, amount, now)),
            r is Ok ==> final(self)@ == old(self)@.unbond(address@, period, amount, now),
            r is Err ==> final(self)@ == old(self)@,
            final(self).inv(),
    {
        let t: usize = match find_period(&self.config.unbonding_periods, period) {
            Some(t) => t,
            None => {
                return Err(ContractError::NoUnbondingPeriodFound { period });
            },
        };
        let name: String = address.to_owned();
        let (slot, mut stakes) = self.positions(&name);
        if slot >= self.stakers.len() || stakes[t] < amount {
            return Err(ContractError::InsufficientStake {  });
        }
        let stake: u128 = stakes[t] - amount;
        stakes.set(t, stake);
        match self.restake(slot, &name, stakes, now) {
            Ok(_) => Ok(()),
            Err(e) => Err(e),
        }
    }

    /// Moves `amount` tokens of `address` from the tier of `bond_from` to
    /// the tier of `bond_to` at `now`, in one step: no flow ever sees the
    /// tokens in both tiers or in none.
    ///
    /// Fails, and changes nothing, exactly as `rebond_error` says.
    pub fn rebond(
        &mut self,
        address: &str,
        amount: u128,
        bond_from: u64,
        bond_to: u64,
        now: u64,
    ) -> (r: Result<(), ContractError>)
        requires
            old(self).inv(),
        ensures
            r == outcome(old(self)@.rebond_error(address@, amount, bond_from, bond_to, now)),
            r is Ok ==> final(self)@ == old(self)@.rebond(
                address@,
                amount,
                bond_from,
                bond_to,
                now,
            ),
            r is Err ==> final(self)@ == old(self)@,
            final(self).inv(),
    {
        let a: usize = match find_period(&self.config.unbonding_periods, bond_from) {
            Some(t) => t,
            None => {
                return Err(ContractError::NoUnbondingPeriodFound { period: bond_from });
            },
        };
        let b: usize = match find_period(&self.config.unbonding_periods, bond_to) {
            Some(t) => t,
            None => {
                return Err(ContractError::NoUnbondingPeriodFound { period: bond_to });
            },
        };
        let name: String = address.to_owned();
        let (slot, mut stakes) = self.positions(&name);
        if slot >= self.stakers.len() || stakes[a] < amount {
            return Err(ContractError::InsufficientStake {  });
        }
        let less: u128 = stakes[a] - amount;
        stakes.set(a, less);
        let more: u128 = match stakes[b].checked_add(amount) {
            Some(v) => v,
            None => {
                return Err(ContractError::Overflow {  });
            },
        };
        stakes.set(b, more);
        match self.restake(slot, &name, stakes, now) {
            Ok(_) => Ok(()),
            Err(e) => Err(e),
        }
    }
}


/// What a withdrawal pays, and to whom.
#[derive(Debug)]
pub struct Withdrawal {
    /// The address that is paid.
    pub receiver: String,
    /// The amount of each asset that is paid, in the order of the flows;
    /// assets of which nothing is paid are left out.
    pub rewards: Vec<AssetValidated>,
}

/// Amounts of assets as pairs of asset and amount.
pub open spec fn rewards_view(rewards: Seq<AssetValidated>) -> Seq<(AssetModel, u128)> {
    Seq::new(rewards.len(), |i: int| rewards[i]@)
}

impl Ledger {
    /// Releases in every flow what is releasable at `now`: what was funded,
    /// is not yet released, and is no longer locked. Anyone may ask for this;
    /// it moves no funds to anyone.
    ///
    /// Fails with an overflow, and changes nothing, exactly when the release
    /// fails in some flow.
    pub fn distribute_rewards(&mut self, now: u64) -> (r: Result<(), ContractError>)
        requires
            old(self).inv(),
        ensures
            r is Ok <==> !old(self)@.distribute_fails(now),
            r is Ok ==> final(self)@ == old(self)@.distribute(now),
            r is Err ==> r == Err::<(), ContractError>(ContractError::Overflow {  })
                && *final(self) == *old(self),
            final(self).inv(),
    {
        let n: usize = self.flows.len();
        let mut plans: Vec<Totals> = Vec::new();
        let mut f: usize = 0;
        while f < n
            invariant
                self.inv(),
                n == self.flows@.len(),
                0 <= f <= n,
                plans@.len() == f,
                forall|g: int| 0 <= g < f ==> !(#[trigger] self@.flows[g]).release_fails(now),
                forall|g: int|
                    0 <= g < f ==> (#[trigger] plans@[g])@ == self@.flows[g].release(
                        now,
                    ).book.totals,
            decreases n - f,
        {
            proof {
                assert(self@.flow_inv(f as int));
                assert(self@.flows[f as int] == self.flows@[f as int]@);
            }
            match self.flows[f].released_totals(now) {
                Some(totals) => {
                    plans.push(totals);
                },
                None => {
                    assert(self@.flows[f as int].release_fails(now));
                    return Err(ContractError::Overflow {  });
                },
            }
            f = f + 1;
        }
        proof {
            lemma_distribute_keeps_inv(self@, now);
        }
        let mut f: usize = 0;
        while f < n
            invariant
                n == self.flows@.len(),
                n == old(self).flows@.len(),
                plans@.len() == n,
                0 <= f <= n,
                self.config == old(self).config,
                self.stakers == old(self).stakers,
                forall|g: int| f <= g < n ==> self.flows@[g] == old(self).flows@[g],
                forall|g: int|
                    0 <= g < f ==> (#[trigger] self.flows@[g])@ == (FlowModel {
                        book: BookModel { totals: plans@[g]@, ..old(self).flows@[g]@.book },
                        ..old(self).flows@[g]@
                    }),
            decreases n - f,
        {
            self.flows[f].book.totals = plans[f];
            f = f + 1;
        }
        proof {
            let after = self@;
            let target = old(self)@.distribute(now);
            assert forall|g: int| 0 <= g < n implies after.flows[g] == target.flows[g] by {
                assert(old(self)@.flows[g] == old(self).flows@[g]@);
            }
            assert(after.flows =~= target.flows);
        }
        Ok(())
    }

    /// Registers `address` as a staker without tokens, with an account in
    /// every flow, and returns the staker's index.
    fn register(&mut self, address: &String) -> (slot: usize)
        requires
            old(self).inv(),
        ensures
            final(self)@ == old(self)@.register(address@),
            slot == old(self)@.stakers.len(),
            final(self).inv(),
    {
        let slot: usize = self.stakers.len();
        let n: usize = self.flows.len();
        let mut f: usize = 0;
        while f < n
            invariant
                n == self.flows@.len(),
                n == old(self).flows@.len(),
                0 <= f <= n,
                old(self).inv(),
                self.config == old(self).config,
                self.stakers == old(self).stakers,
                forall|g: int| f <= g < n ==> self.flows@[g] == old(self).flows@[g],
                forall|g: int|
                    0 <= g < f ==> (#[trigger] self.flows@[g])@ == old(
                        self,
                    ).flows@[g]@.open_account(),
            decreases n - f,
        {
            proof {
                assert(old(self)@.flow_inv(f as int));
                assert(old(self)@.flows[f as int] == old(self).flows@[f as int]@);
            }
            self.flows[f].book.open_account();
            f = f + 1;
        }
        let periods: usize = self.config.unbonding_periods.len();
        let mut stakes: Vec<u128> = Vec::new();
        let mut i: usize = 0;
        while i < periods
            invariant
                0 <= i <= periods,
                stakes@ == Seq::new(i as nat, |k: int| 0u128),
            decreases periods - i,
        {
            stakes.push(0);
            assert(stakes@ =~= Seq::new((i + 1) as nat, |k: int| 0u128));
            i = i + 1;
        }
        self.stakers.push(Staker { address: address.clone(), stakes, delegated: None });
        proof {
            let after = self@;
            let target = old(self)@.register(address@);
            assert(after.stakers =~= target.stakers);
            assert forall|g: int| 0 <= g < n implies after.flows[g] == target.flows[g] by {
                assert(old(self)@.flows[g] == old(self).flows@[g]@);
            }
            assert(after.flows =~= target.flows);
            lemma_register_keeps_inv(old(self)@, address@);
        }
        slot
    }

    /// From now on the withdrawals of `sender` go to `delegated`, where a
    /// withdrawal names no receiver. The last choice counts. A sender that
    /// has never staked is registered.
    pub fn delegate_withdrawal(&mut self, sender: &str, delegated: &str)
        requires
            old(self).inv(),
        ensures
            final(self)@ == old(self)@.delegate_withdrawal(sender@, delegated@),
            final(self)@.delegated(sender@) == delegated@,
            final(self).inv(),
    {
        let name: String = sender.to_owned();
        let slot: usize = match self.find_staker(&name) {
            Some(s) => s,
            None => self.register(&name),
        };
        let ghost joined = self@;
        self.stakers[slot].delegated = Some(delegated.to_owned());
        proof {
            let after = self@;
            let target = old(self)@.delegate_withdrawal(sender@, delegated@);
            assert(after.stakers =~= target.stakers);
            assert(after.flows =~= target.flows);
            lemma_delegate_withdrawal_keeps_inv(old(self)@, sender@, delegated@);
            if old(self)@.staker(sender@) is None {
                crate::lookup::lemma_absent_then_last(old(self)@.addresses(), sender@);
                assert(after.addresses() =~= old(self)@.addresses().push(sender@));
            } else {
                assert(after.addresses() =~= old(self)@.addresses());
            }
        }
    }
}


impl Ledger {
    /// Computes, for each flow, the totals and the account of staker `s`
    /// after a release at `now` and a withdrawal of all that the staker can
    /// withdraw, and the amount withdrawn. Nothing is written. `None`
    /// exactly when the withdrawal fails in some flow.
    fn plan_withdraw(&self, s: usize, now: u64) -> (r: Option<(Plans, Vec<u128>)>)
        requires
            self.inv(),
            s < self@.stakers.len(),
        ensures
            r is Some <==> !self@.withdraw_fails(s as int, now),
            r matches Some((plans, amounts)) ==> {
                &&& plans@.len() == self@.flows.len()
                &&& amounts@.len() == self@.flows.len()
                &&& forall|f: int|
                    0 <= f < self@.flows.len() ==> {
                        &&& (#[trigger] plans@[f]).0@ == self@.flows[f].pay(now, s as int).book.totals
                        &&& plans@[f].1@ == self@.flows[f].pay(now, s as int).book.accounts[s as int]
                    }
                &&& forall|f: int|
                    0 <= f < self@.flows.len() ==> (#[trigger] amounts@[f]) == self@.flows[f].payout(
                        now,
                        s as int,
                    )
            },
    {
        let n: usize = self.flows.len();
        let mut plans: Plans = Vec::new();
        let mut amounts: Vec<u128> = Vec::new();
        let mut f: usize = 0;
        while f < n
            invariant
                self.inv(),
                s < self@.stakers.len(),
                n == self@.flows.len(),
                n == self.flows@.len(),
                0 <= f <= n,
                plans@.len() == f,
                amounts@.len() == f,
                forall|g: int| 0 <= g < f ==> !#[trigger] self@.withdraw_fails_in(g, s as int, now),
                forall|g: int|
                    0 <= g < f ==> {
                        &&& (#[trigger] plans@[g]).0@ == self@.flows[g].pay(now, s as int).book.totals
                        &&& plans@[g].1@ == self@.flows[g].pay(now, s as int).book.accounts[s as int]
                    },
                forall|g: int|
                    0 <= g < f ==> (#[trigger] amounts@[g]) == self@.flows[g].payout(now, s as int),
            decreases n - f,
        {
            let flow: &Flow = &self.flows[f];
            proof {
                assert(self@.flow_inv(f as int));
                assert(self@.flows[f as int] == flow@);
            }
            let released: Totals = match flow.released_totals(now) {
                Some(v) => v,
                None => {
                    assert(self@.withdraw_fails_in(f as int, s as int, now));
                    return None;
                },
            };
            let account: Account = flow.book.account(s);
            proof {
                lemma_release_keeps_flow(self@, f as int, now);
                let book = flow@.release(now).book;
                assert(book.accounts[s as int] == account@);
                crate::book::lemma_owed_is_covered(book, s as int);
                crate::book::lemma_withdrawn_within_total(book, s as int);
            }
            let amount: u128 = match account.owed(released.shares_per_point) {
                Some(v) => v,
                None => {
                    assert(self@.withdraw_fails_in(f as int, s as int, now));
                    return None;
                },
            };
            plans.push((released.paid(amount), account.paid(amount)));
            amounts.push(amount);
            f = f + 1;
        }
        Some((plans, amounts))
    }

    /// The assets and amounts of the flows of which `amounts` holds
    /// something, in the flows' order.
    fn rewards_of(&self, amounts: &Vec<u128>, Ghost(s): Ghost<int>, Ghost(now): Ghost<u64>) -> (r: Vec<
        AssetValidated,
    >)
        requires
            amounts@.len() == self@.flows.len(),
            forall|f: int|
                0 <= f < self@.flows.len() ==> (#[trigger] amounts@[f]) == self@.flows[f].payout(
                    now,
                    s,
                ),
        ensures
            rewards_view(r@) == self@.payouts(s, now, self@.flows.len() as int),
    {
        let n: usize = self.flows.len();
        let mut rewards: Vec<AssetValidated> = Vec::new();
        let mut f: usize = 0;
        assert(rewards_view(rewards@) =~= self@.payouts(s, now, 0));
        while f < n
            invariant
                n == self@.flows.len(),
                n == self.flows@.len(),
                amounts@.len() == n,
                0 <= f <= n,
                forall|g: int|
                    0 <= g < n ==> (#[trigger] amounts@[g]) == self@.flows[g].payout(now, s),
                rewards_view(rewards@) == self@.payouts(s, now, f as int),
            decreases n - f,
        {
            let amount: u128 = amounts[f];
            if amount > 0 {
                let ghost before = rewards@;
                rewards.push(self.flows[f].asset.with_balance(amount));
                assert(rewards_view(rewards@) =~= rewards_view(before).push(
                    (self@.flows[f as int].asset, amount),
                ));
            }
            f = f + 1;
        }
        rewards
    }

    /// The address that receives what `owner` withdraws where the call names
    /// no receiver.
    pub fn delegated(&self, owner: &str) -> (r: String)
        ensures
            r@ == self@.delegated(owner@),
    {
        let name: String = owner.to_owned();
        match self.find_staker(&name) {
            Some(s) => match &self.stakers[s].delegated {
                Some(receiver) => receiver.clone(),
                None => name,
            },
            None => name,
        }
    }

    /// Withdraws at `now` the rewards of `owner`, or of `sender` where no
    /// owner is named: every flow releases what is releasable and then pays
    /// the owner all that the owner can withdraw. The payment goes to
    /// `receiver` where one is named, for this call only; else to the
    /// address that the owner has chosen for withdrawals, or to the owner.
    /// An owner that has never staked is paid nothing, and nothing changes.
    ///
    /// Fails, and changes nothing, exactly as `withdraw_error` says: the
    /// sender is neither the owner nor the address that the owner has
    /// chosen, or the withdrawal overflows in some flow.
    pub fn withdraw_rewards(
        &mut self,
        sender: &str,
        owner: Option<&str>,
        receiver: Option<&str>,
        now: u64,
    ) -> (r: Result<Withdrawal, ContractError>)
        requires
            old(self).inv(),
        ensures
            r is Err <==> old(self)@.withdraw_error(sender@, owner_of(sender, owner), now) is Some,
            r matches Err(e) ==> Some(e) == old(self)@.withdraw_error(
                sender@,
                owner_of(sender, owner),
                now,
            ) && final(self)@ == old(self)@,
            r matches Ok(paid) ==> {
                &&& final(self)@ == old(self)@.withdraw_rewards(owner_of(sender, owner), now)
                &&& paid.receiver@ == (match receiver {
                    Some(name) => name@,
                    None => old(self)@.delegated(owner_of(sender, owner)),
                })
                &&& rewards_view(paid.rewards@) == old(self)@.rewards_paid(
                    owner_of(sender, owner),
                    now,
                )
            },
            final(self).inv(),
    {
        let owner_name: String = match owner {
            Some(name) => name.to_owned(),
            None => sender.to_owned(),
        };
        let sender_name: String = sender.to_owned();
        let chosen: String = self.delegated(owner_name.as_str());
        if !same_text(&sender_name, &owner_name) && !same_text(&sender_name, &chosen) {
            return Err(ContractError::Unauthorized {  });
        }
        let to: String = match receiver {
            Some(name) => name.to_owned(),
            None => chosen,
        };
        let s: usize = match self.find_staker(&owner_name) {
            Some(s) => s,
            None => {
                return Ok(Withdrawal { receiver: to, rewards: Vec::new() });
            },
        };
        let (plans, amounts) = match self.plan_withdraw(s, now) {
            Some(v) => v,
            None => {
                return Err(ContractError::Overflow {  });
            },
        };
        let rewards: Vec<AssetValidated> = self.rewards_of(&amounts, Ghost(s as int), Ghost(now));
        proof {
            lemma_withdraw_keeps_inv(self@, s as int, now);
        }
        self.write_plans(s, &plans);
        proof {
            let after = self@;
            let target = old(self)@.withdraw(s as int, now);
            assert forall|f: int| 0 <= f < after.flows.len() implies after.flows[f]
                == target.flows[f] by {
                assert(old(self)@.flow_inv(f));
                assert(old(self)@.flows[f] == old(self).flows@[f]@);
                assert(after.flows[f].book.accounts =~= target.flows[f].book.accounts);
            }
            assert(after.flows =~= target.flows);
        }
        Ok(Withdrawal { receiver: to, rewards })
    }
}

/// The owner of a withdrawal: the one that is named, or the sender.
pub open spec fn owner_of(sender: &str, owner: Option<&str>) -> Seq<char> {
    match owner {
        Some(name) => name@,
        None => sender@,
    }
}


impl Ledger {
    /// Whether a rewards table names the tiers of the ledger, each once and
    /// in their order.
    fn names_tiers(&self, rewards: &Vec<(u64, Decimal)>) -> (r: bool)
        ensures
            r == (rewards_periods(rewards@) == self@.periods),
    {
        let n: usize = self.config.unbonding_periods.len();
        if rewards.len() != n {
            return false;
        }
        let mut i: usize = 0;
        while i < n
            invariant
                n == self.config.unbonding_periods@.len(),
                n == rewards@.len(),
                0 <= i <= n,
                forall|j: int| 0 <= j < i ==> rewards@[j].0 == self.config.unbonding_periods@[j],
            decreases n - i,
        {
            if rewards[i].0 != self.config.unbonding_periods[i] {
                assert(rewards_periods(rewards@)[i as int] != self@.periods[i as int]);
                return false;
            }
            i = i + 1;
        }
        assert(rewards_periods(rewards@) =~= self@.periods);
        true
    }

    /// The book with which a flow with the given multipliers starts; `None`
    /// exactly when the powers of the stakers cannot be computed or added
    /// up.
    fn first_book(&self, multipliers: &Vec<Decimal>) -> (r: Option<FlowBook>)
        requires
            self.inv(),
            multipliers@.len() == self@.periods.len(),
        ensures
            r is Some <==> !self@.first_accounts_overflow(multipliers@),
            r matches Some(book) ==> book@ == self@.first_flow(
                Seq::empty(),
                AssetModel::Native(Seq::empty()),
                multipliers@,
            ).book,
    {
        let n: usize = self.stakers.len();
        let mut accounts: Vec<Account> = Vec::new();
        let mut total: u128 = 0;
        let mut s: usize = 0;
        let ghost target = self@.first_accounts(multipliers@);
        assert(crate::book::accounts_view(accounts@) =~= target.take(0));
        while s < n
            invariant
                self.inv(),
                multipliers@.len() == self@.periods.len(),
                n == self@.stakers.len(),
                n == self.stakers@.len(),
                0 <= s <= n,
                target == self@.first_accounts(multipliers@),
                crate::book::accounts_view(accounts@) == target.take(s as int),
                total == crate::book::sum_power(target.take(s as int)),
                forall|t: int|
                    0 <= t < s ==> !crate::stake::power_overflows(
                        self@.tokens_per_power,
                        self@.min_bond,
                        (#[trigger] self@.stakers[t]).stakes,
                        multipliers@,
                    ),
                forall|k: int|
                    0 <= k <= s ==> crate::book::sum_power(#[trigger] target.take(k)) <= u128::MAX,
            decreases n - s,
        {
            proof {
                assert(self@.stakers[s as int] == self.stakers@[s as int]@);
                assert(target.take(s + 1).drop_last() == target.take(s as int));
                crate::book::lemma_sums_push(target.take(s as int), target[s as int], 0);
                assert(target.take(s + 1) == target.take(s as int).push(target[s as int]));
            }
            let power: u128 = match rewards_power(&self.config, &self.stakers[s].stakes, multipliers) {
                Ok(v) => v,
                Err(_) => {
                    return None;
                },
            };
            total = match total.checked_add(power) {
                Some(v) => v,
                None => {
                    return None;
                },
            };
            accounts.push(Account { power, correction: 0, withdrawn: 0 });
            assert(crate::book::accounts_view(accounts@) =~= target.take(s + 1));
            s = s + 1;
        }
        assert(target.take(n as int) == target);
        Some(
            FlowBook {
                totals: Totals {
                    shares_per_point: 0,
                    shares_leftover: 0,
                    total_power: total,
                    distributed_total: 0,
                    withdrawable_total: 0,
                },
                accounts,
            },
        )
    }

    /// Creates a distribution flow that pays `asset` and is funded by
    /// `manager`. `rewards` gives each tier of the ledger its multiplier,
    /// which stays as it is for as long as the flow exists. Stakers that
    /// have bonded before the flow existed take part in it at once, by the
    /// power of their positions.
    ///
    /// Fails, and changes nothing, exactly as `create_flow_error` says: the
    /// sender is not the admin; the asset is the staking token; the table
    /// does not name the tiers; the ledger has as many flows as it may
    /// have; the asset has a flow; or the stakers' powers overflow.
    pub fn create_distribution_flow(
        &mut self,
        sender: &str,
        manager: &str,
        asset: AssetInfo,
        rewards: Vec<(u64, Decimal)>,
    ) -> (r: Result<(), ContractError>)
        requires
            old(self).inv(),
        ensures
            r == outcome(old(self)@.create_flow_error(sender@, asset@, rewards@)),
            r is Ok ==> final(self)@ == old(self)@.create_flow(manager@, asset@, rewards@),
            r is Err ==> final(self)@ == old(self)@,
            final(self).inv(),
    {
        let sender_name: String = sender.to_owned();
        if !is_text(&self.config.admin, &sender_name) {
            return Err(ContractError::Unauthorized {  });
        }
        let asset: AssetInfoValidated = asset.validate();
        if asset.is_token(&self.config.cw20_contract) {
            return Err(ContractError::InvalidAsset {  });
        }
        if !self.names_tiers(&rewards) {
            return Err(ContractError::InvalidRewards {  });
        }
        if self.flows.len() >= self.config.max_distributions as usize {
            return Err(ContractError::TooManyDistributions { max: self.config.max_distributions });
        }
        if self.find_flow(&asset).is_some() {
            return Err(ContractError::DistributionAlreadyExists {  });
        }
        let n: usize = rewards.len();
        let mut multipliers: Vec<Decimal> = Vec::new();
        let mut i: usize = 0;
        while i < n
            invariant
                n == rewards@.len(),
                0 <= i <= n,
                multipliers@ == rewards_multipliers(rewards@).take(i as int),
            decreases n - i,
        {
            multipliers.push(rewards[i].1);
            assert(multipliers@ =~= rewards_multipliers(rewards@).take(i + 1));
            i = i + 1;
        }
        assert(rewards_multipliers(rewards@).take(n as int) == rewards_multipliers(rewards@));
        assert(rewards_periods(rewards@).len() == n);
        let book: FlowBook = match self.first_book(&multipliers) {
            Some(v) => v,
            None => {
                return Err(ContractError::Overflow {  });
            },
        };
        proof {
            lemma_create_flow_keeps_inv(old(self)@, manager@, asset@, rewards@);
        }
        self.flows.push(
            Flow {
                asset,
                manager: manager.to_owned(),
                multipliers,
                curve: Curve::constant(0),
                funded_total: 0,
                book,
            },
        );
        proof {
            let after = self@;
            let target = old(self)@.create_flow(manager@, asset@, rewards@);
            assert(after.flows =~= target.flows);
        }
        Ok(())
    }

    /// Hands `amount` units of `asset` to the flow that pays the asset,
    /// with no schedule: the units are releasable at once. This is what a
    /// plain transfer of the asset into custody amounts to.
    ///
    /// Fails, and changes nothing, exactly as `deposit_error` says: the
    /// asset has no flow, or the flow's funds would overflow.
    pub fn deposit(&mut self, asset: &AssetInfoValidated, amount: u128) -> (r: Result<
        (),
        ContractError,
    >)
        requires
            old(self).inv(),
        ensures
            r == outcome(old(self)@.deposit_error(asset@, amount)),
            r is Ok ==> final(self)@ == old(self)@.deposit(asset@, amount),
            r is Err ==> final(self)@ == old(self)@,
            final(self).inv(),
    {
        let f: usize = match self.find_flow(asset) {
            Some(f) => f,
            None => {
                return Err(ContractError::NoDistributionFlow {  });
            },
        };
        let funded: u128 = match self.flows[f].funded_total.checked_add(amount) {
            Some(v) => v,
            None => {
                return Err(ContractError::Overflow {  });
            },
        };
        proof {
            lemma_deposit_keeps_inv(self@, asset@, amount);
        }
        self.flows[f].funded_total = funded;
        proof {
            let after = self@;
            let target = old(self)@.deposit(asset@, amount);
            assert(after.flows =~= target.flows);
        }
        Ok(())
    }
}


impl Ledger {
    /// Funds the flow that pays `asset` with `amount` units that unlock
    /// along `curve`, a schedule that counts time from the funding. The
    /// flow first releases what is releasable at `now`. The schedule is
    /// then moved to start at `now` and added to the schedule that the flow
    /// has: what was funded before and is still locked stays locked.
    ///
    /// Fails, and changes nothing, exactly as `fund_outcome` says: the
    /// asset is the staking token or has no flow; the sender does not
    /// manage the flow; the schedule is malformed, or does not start at
    /// `amount` and end at nothing; the sum of the schedules rises; or an
    /// amount overflows.
    pub fn fund(
        &mut self,
        sender: &str,
        asset: &AssetInfoValidated,
        amount: u128,
        curve: Curve,
        now: u64,
    ) -> (r: Result<(), ContractError>)
        requires
            old(self).inv(),
        ensures
            old(self)@.fund_outcome(final(self)@, sender@, asset@, amount, curve@, now, r),
            final(self).inv(),
    {
        if asset.is_token(&self.config.cw20_contract) {
            return Err(ContractError::InvalidAsset {  });
        }
        let f: usize = match self.find_flow(asset) {
            Some(f) => f,
            None => {
                return Err(ContractError::NoDistributionFlow {  });
            },
        };
        proof {
            assert(self@.flow_inv(f as int));
            assert(self@.flows[f as int] == self.flows@[f as int]@);
        }
        let sender_name: String = sender.to_owned();
        if !same_text(&self.flows[f].manager, &sender_name) {
            return Err(ContractError::Unauthorized {  });
        }
        match curve.validate() {
            Ok(_) => {},
            Err(reason) => {
                return Err(ContractError::Curve { reason });
            },
        }
        let (low, high) = curve.range();
        proof {
            if curve@.bounds(0, amount) {
                crate::curve::lemma_bounds_unique(curve@, low, high, 0, amount);
            }
        }
        if low != 0 || high != amount {
            return Err(ContractError::InvalidRewards {  });
        }
        let released: Totals = match self.flows[f].released_totals(now) {
            Some(v) => v,
            None => {
                return Err(ContractError::Overflow {  });
            },
        };
        let funded: u128 = match self.flows[f].funded_total.checked_add(amount) {
            Some(v) => v,
            None => {
                return Err(ContractError::Overflow {  });
            },
        };
        let ghost schedule = curve@;
        let moved: Curve = match curve.shift(now) {
            Ok(v) => v,
            Err(_) => {
                return Err(ContractError::Overflow {  });
            },
        };
        proof {
            crate::curve::lemma_shift_keeps_wf(schedule, now);
        }
        let sum: Curve = match self.flows[f].curve.combine(&moved) {
            Ok(v) => v,
            Err(_) => {
                return Err(ContractError::Overflow {  });
            },
        };
        match sum.validate_monotonic_decreasing() {
            Ok(_) => {},
            Err(reason) => {
                assert(crate::combine::combination(self@.flows[f as int].curve, moved@, Ok(sum@)));
                return Err(ContractError::Curve { reason });
            },
        }
        proof {
            lemma_fund_keeps_inv(self@, f as int, amount, sum@, now);
        }
        self.flows[f].book.totals = released;
        self.flows[f].curve = sum;
        self.flows[f].funded_total = funded;
        proof {
            let after = self@;
            let target = old(self)@.funded(f as int, amount, after.flows[f as int].curve, now);
            assert(after.flows =~= target.flows);
        }
        Ok(())
    }
}


impl Ledger {
    /// A copy of the whole ledger.
    pub fn copy(&self) -> (r: Ledger)
        ensures
            r@ == self@,
    {
        let config = Config {
            cw20_contract: self.config.cw20_contract.clone(),
            tokens_per_power: self.config.tokens_per_power,
            min_bond: self.config.min_bond,
            unbonding_periods: copy_list(&self.config.unbonding_periods),
            max_distributions: self.config.max_distributions,
            admin: copy_name(&self.config.admin),
            unbonder: copy_name(&self.config.unbonder),
        };
        let ns: usize = self.stakers.len();
        let mut stakers: Vec<Staker> = Vec::new();
        let mut s: usize = 0;
        while s < ns
            invariant
                ns == self.stakers@.len(),
                0 <= s <= ns,
                stakers@.len() == s,
                stakers_view(stakers@) == stakers_view(self.stakers@).take(s as int),
            decreases ns - s,
        {
            let staker: &Staker = &self.stakers[s];
            let copied = Staker {
                address: staker.address.clone(),
                stakes: copy_list(&staker.stakes),
                delegated: copy_name(&staker.delegated),
            };
            assert(copied@ == staker@);
            let ghost before = stakers@;
            stakers.push(copied);
            assert forall|k: int| 0 <= k < s + 1 implies stakers_view(stakers@)[k] == stakers_view(
                self.stakers@,
            ).take(s + 1)[k] by {
                if k < s {
                    assert(stakers@[k] == before[k]);
                    assert(stakers_view(before)[k] == stakers_view(self.stakers@).take(s as int)[k]);
                }
            }
            assert(stakers_view(stakers@) =~= stakers_view(self.stakers@).take(s + 1));
            s = s + 1;
        }
        assert(stakers_view(self.stakers@).take(ns as int) == stakers_view(self.stakers@));
        let nf: usize = self.flows.len();
        let mut flows: Vec<Flow> = Vec::new();
        let mut f: usize = 0;
        while f < nf
            invariant
                nf == self.flows@.len(),
                0 <= f <= nf,
                flows@.len() == f,
                flows_view(flows@) == flows_view(self.flows@).take(f as int),
            decreases nf - f,
        {
            let flow: &Flow = &self.flows[f];
            let copied = Flow {
                asset: flow.asset.clone(),
                manager: flow.manager.clone(),
                multipliers: copy_list(&flow.multipliers),
                curve: flow.curve.copy(),
                funded_total: flow.funded_total,
                book: FlowBook { totals: flow.book.totals, accounts: copy_list(&flow.book.accounts) },
            };
            assert(copied@ == flow@) by {
                assert(copied.book@.accounts =~= flow.book@.accounts);
            }
            let ghost before = flows@;
            flows.push(copied);
            assert forall|k: int| 0 <= k < f + 1 implies flows_view(flows@)[k] == flows_view(
                self.flows@,
            ).take(f + 1)[k] by {
                if k < f {
                    assert(flows@[k] == before[k]);
                    assert(flows_view(before)[k] == flows_view(self.flows@).take(f as int)[k]);
                }
            }
            assert(flows_view(flows@) =~= flows_view(self.flows@).take(f + 1));
            f = f + 1;
        }
        assert(flows_view(self.flows@).take(nf as int) == flows_view(self.flows@));
        Ledger { config, stakers, flows }
    }
}


/// The shares of a mass delegation as pairs of address and amount.
pub open spec fn shares_view(shares: Seq<(String, u128)>) -> Seq<(Seq<char>, u128)> {
    Seq::new(shares.len(), |i: int| (shares[i].0@, shares[i].1))
}

impl Ledger {
    /// Bonds for `period`, out of `amount` tokens that one sender has
    /// handed over, a share for each address in `delegate_to`, in their
    /// order. The outcome is that of bonding the shares one after the other;
    /// what the shares leave of the amount stays in custody.
    ///
    /// Fails, and changes nothing, where the period is no tier, where the
    /// shares add up to more than `amount`, and where a share cannot be
    /// bonded: exactly as `mass_delegate` says.
    pub fn mass_delegate(
        &mut self,
        amount: u128,
        period: u64,
        delegate_to: &Vec<(String, u128)>,
        now: u64,
    ) -> (r: Result<(), ContractError>)
        requires
            old(self).inv(),
        ensures
            match old(self)@.mass_delegate(amount, period, shares_view(delegate_to@), now) {
                Ok(ledger) => r is Ok && final(self)@ == ledger,
                Err(e) => r == Err::<(), ContractError>(e) && final(self)@ == old(self)@,
            },
            final(self)@.staking_token == old(self)@.staking_token,
            final(self).inv(),
    {
        if find_period(&self.config.unbonding_periods, period).is_none() {
            return Err(ContractError::NoUnbondingPeriodFound { period });
        }
        let n: usize = delegate_to.len();
        let ghost shares = shares_view(delegate_to@);
        let mut sum: u128 = 0;
        let mut i: usize = 0;
        while i < n
            invariant
                n == delegate_to@.len(),
                shares == shares_view(delegate_to@),
                0 <= i <= n,
                sum == shares_sum(shares, i as int),
                sum <= amount,
                *self == *old(self),
                self.inv(),
                old(self)@.tier(period) is Some,
            decreases n - i,
        {
            proof {
                lemma_shares_sum_grows(shares, i + 1, n as int);
                assert(shares_sum(shares, i + 1) == sum + delegate_to@[i as int].1);
            }
            sum = match sum.checked_add(delegate_to[i].1) {
                Some(v) => v,
                None => {
                    return Err(ContractError::MassDelegateTooMuch {  });
                },
            };
            if sum > amount {
                return Err(ContractError::MassDelegateTooMuch {  });
            }
            i = i + 1;
        }
        let mut undos: Vec<Undo> = Vec::new();
        let ghost mut trail: Seq<LedgerModel> = seq![self@];
        let mut i: usize = 0;
        while i < n
            invariant
                n == delegate_to@.len(),
                shares == shares_view(delegate_to@),
                0 <= i <= n,
                self.inv(),
                old(self).inv(),
                self@.staking_token == old(self)@.staking_token,
                old(self)@.tier(period) is Some,
                shares_sum(shares, n as int) <= amount,
                old(self)@.mass_delegate_upto(period, shares, now, i as int) == Ok::<
                    LedgerModel,
                    ContractError,
                >(self@),
                undos@.len() == i,
                trail.len() == i + 1,
                trail[0] == old(self)@,
                trail[i as int] == self@,
                forall|j: int|
                    0 <= j < i ==> (#[trigger] trail[j]).inv() && undos@[j].records(
                        trail[j],
                        shares[j].0,
                    ) && trail[j + 1] == trail[j].delegate(shares[j].0, period, shares[j].1, now),
            decreases n - i,
        {
            match self.delegate_undoable(delegate_to[i].0.as_str(), period, delegate_to[i].1, now) {
                Ok(undo) => {
                    undos.push(undo);
                    proof {
                        trail = trail.push(self@);
                    }
                },
                Err(e) => {
                    proof {
                        lemma_mass_delegate_stays_failed(
                            old(self)@,
                            period,
                            shares,
                            now,
                            i + 1,
                            n as int,
                        );
                    }
                    let ghost all = undos@;
                    let mut j: usize = i;
                    while j > 0
                        invariant
                            0 <= j <= i,
                            i < n,
                            n == delegate_to@.len(),
                            shares == shares_view(delegate_to@),
                            all.len() == i,
                            undos@ == all.take(j as int),
                            trail.len() == i + 1,
                            self@ == trail[j as int],
                            forall|k: int|
                                0 <= k < i ==> (#[trigger] trail[k]).inv() && all[k].records(
                                    trail[k],
                                    shares[k].0,
                                ) && trail[k + 1] == trail[k].delegate(
                                    shares[k].0,
                                    period,
                                    shares[k].1,
                                    now,
                                ),
                        decreases j,
                    {
                        let undo: Undo = undos.pop().unwrap();
                        j = j - 1;
                        assert(undo == all[j as int]);
                        assert(trail[j as int].inv());
                        self.undo(
                            undo,
                            Ghost(trail[j as int]),
                            Ghost(shares[j as int].0),
                            Ghost(
                                trail[j as int].stakes_with_more(
                                    shares[j as int].0,
                                    trail[j as int].tier(period).unwrap(),
                                    shares[j as int].1,
                                ),
                            ),
                            Ghost(now),
                        );
                        assert(undos@ =~= all.take(j as int));
                    }
                    return Err(e);
                },
            }
            i = i + 1;
        }
        Ok(())
    }
}


/// Powers by asset as pairs of asset and power.
pub open spec fn powers_view(powers: Seq<(AssetInfoValidated, u128)>) -> Seq<(AssetModel, u128)> {
    Seq::new(powers.len(), |i: int| (powers[i].0@, powers[i].1))
}

impl Ledger {
    /// The settings of the ledger.
    pub fn config(&self) -> (r: &Config)
        ensures
            r.tokens_per_power == self@.tokens_per_power,
            r.min_bond == self@.min_bond,
            r.unbonding_periods@ == self@.periods,
            r.max_distributions == self@.max_distributions,
            r.cw20_contract@ == self@.staking_token,
            text_view(r.admin) == self@.admin,
            text_view(r.unbonder) == self@.unbonder,
    {
        &self.config
    }

    /// The number of flows.
    pub fn flow_count(&self) -> (r: usize)
        ensures
            r == self@.flows.len(),
    {
        self.flows.len()
    }

    /// Each flow's asset with the amount that `amounts` holds for the flow.
    fn with_assets(&self, amounts: &Vec<u128>) -> (r: Vec<AssetValidated>)
        requires
            amounts@.len() == self@.flows.len(),
        ensures
            rewards_view(r@) == Seq::new(
                self@.flows.len(),
                |f: int| (self@.flows[f].asset, amounts@[f]),
            ),
    {
        let n: usize = self.flows.len();
        let mut out: Vec<AssetValidated> = Vec::new();
        let mut f: usize = 0;
        let ghost target = Seq::new(
            self@.flows.len(),
            |f: int| (self@.flows[f].asset, amounts@[f]),
        );
        while f < n
            invariant
                n == self.flows@.len(),
                n == amounts@.len(),
                0 <= f <= n,
                out@.len() == f,
                target == Seq::new(self@.flows.len(), |f: int| (self@.flows[f].asset, amounts@[f])),
                forall|g: int| 0 <= g < f ==> (#[trigger] out@[g])@ == target[g],
            decreases n - f,
        {
            out.push(self.flows[f].asset.with_balance(amounts[f]));
            f = f + 1;
        }
        assert(rewards_view(out@) =~= target);
        out
    }

    /// What `owner` can withdraw from each flow as the books stand, without
    /// a release: the flow's asset and the amount, in the order of the
    /// flows. An owner that has never staked can withdraw nothing.
    ///
    /// Fails with an overflow exactly when what the owner has earned in
    /// some flow cannot be computed in 128 signed bits.
    pub fn withdrawable_rewards(&self, owner: &str) -> (r: Result<Vec<AssetValidated>, ContractError>)
        requires
            self.inv(),
        ensures
            r is Err <==> self@.owed_fails(owner@),
            r matches Err(e) ==> e == (ContractError::Overflow {  }),
            r matches Ok(rewards) ==> rewards_view(rewards@) == Seq::new(
                self@.flows.len(),
                |f: int| (self@.flows[f].asset, self@.owed(f, owner@) as u128),
            ),
    {
        let name: String = owner.to_owned();
        let known: Option<usize> = self.find_staker(&name);
        let n: usize = self.flows.len();
        let mut amounts: Vec<u128> = Vec::new();
        let mut f: usize = 0;
        while f < n
            invariant
                self.inv(),
                n == self.flows@.len(),
                0 <= f <= n,
                amounts@.len() == f,
                name@ == owner@,
                match known {
                    Some(s) => self@.staker(name@) == Some(s as int) && s < self@.stakers.len(),
                    None => self@.staker(name@) == None::<int>,
                },
                forall|g: int| 0 <= g < f ==> (#[trigger] amounts@[g]) == self@.owed(g, name@),
                known is Some ==> forall|g: int|
                    0 <= g < f ==> !(#[trigger] self@.flows[g]).book.owed_overflows(
                        known.unwrap() as int,
                    ),
            decreases n - f,
        {
            proof {
                assert(self@.flow_inv(f as int));
                assert(self@.flows[f as int] == self.flows@[f as int]@);
            }
            let amount: u128 = match known {
                Some(s) => match self.flows[f].book.withdrawable(s) {
                    Ok(v) => v,
                    Err(e) => {
                        assert(self@.flows[f as int].book.owed_overflows(s as int));
                        assert(name@ == owner@);
                        return Err(e);
                    },
                },
                None => 0,
            };
            amounts.push(amount);
            f = f + 1;
        }
        let rewards: Vec<AssetValidated> = self.with_assets(&amounts);
        assert(rewards_view(rewards@) =~= Seq::new(
            self@.flows.len(),
            |f: int| (self@.flows[f].asset, self@.owed(f, owner@) as u128),
        ));
        Ok(rewards)
    }

    /// The units that each flow has ever released to its stakers.
    pub fn distributed_funds(&self) -> (r: Vec<AssetValidated>)
        ensures
            rewards_view(r@) == Seq::new(
                self@.flows.len(),
                |f: int|
                    (self@.flows[f].asset, self@.flows[f].book.totals.distributed_total as u128),
            ),
    {
        let n: usize = self.flows.len();
        let mut amounts: Vec<u128> = Vec::new();
        let mut f: usize = 0;
        while f < n
            invariant
                n == self.flows@.len(),
                0 <= f <= n,
                amounts@.len() == f,
                forall|g: int|
                    0 <= g < f ==> (#[trigger] amounts@[g])
                        == self@.flows[g].book.totals.distributed_total,
            decreases n - f,
        {
            amounts.push(self.flows[f].book.totals.distributed_total);
            f = f + 1;
        }
        let r: Vec<AssetValidated> = self.with_assets(&amounts);
        assert(rewards_view(r@) =~= Seq::new(
            self@.flows.len(),
            |f: int| (self@.flows[f].asset, self@.flows[f].book.totals.distributed_total as u128),
        ));
        r
    }

    /// The units that each flow has released and not yet paid out.
    pub fn withdrawable_funds(&self) -> (r: Vec<AssetValidated>)
        ensures
            rewards_view(r@) == Seq::new(
                self@.flows.len(),
                |f: int|
                    (self@.flows[f].asset, self@.flows[f].book.totals.withdrawable_total as u128),
            ),
    {
        let n: usize = self.flows.len();
        let mut amounts: Vec<u128> = Vec::new();
        let mut f: usize = 0;
        while f < n
            invariant
                n == self.flows@.len(),
                0 <= f <= n,
                amounts@.len() == f,
                forall|g: int|
                    0 <= g < f ==> (#[trigger] amounts@[g])
                        == self@.flows[g].book.totals.withdrawable_total,
            decreases n - f,
        {
            amounts.push(self.flows[f].book.totals.withdrawable_total);
            f = f + 1;
        }
        let r: Vec<AssetValidated> = self.with_assets(&amounts);
        assert(rewards_view(r@) =~= Seq::new(
            self@.flows.len(),
            |f: int| (self@.flows[f].asset, self@.flows[f].book.totals.withdrawable_total as u128),
        ));
        r
    }

    /// The units that each flow was funded with and has not yet released,
    /// locked or not.
    pub fn undistributed_funds(&self) -> (r: Vec<AssetValidated>)
        requires
            self.inv(),
        ensures
            rewards_view(r@) == Seq::new(
                self@.flows.len(),
                |f: int|
                    (
                        self@.flows[f].asset,
                        (self@.flows[f].funded_total
                            - self@.flows[f].book.totals.distributed_total) as u128,
                    ),
            ),
    {
        let n: usize = self.flows.len();
        let mut amounts: Vec<u128> = Vec::new();
        let mut f: usize = 0;
        while f < n
            invariant
                self.inv(),
                n == self.flows@.len(),
                0 <= f <= n,
                amounts@.len() == f,
                forall|g: int|
                    0 <= g < f ==> (#[trigger] amounts@[g]) == self@.flows[g].funded_total
                        - self@.flows[g].book.totals.distributed_total,
            decreases n - f,
        {
            proof {
                assert(self@.flow_inv(f as int));
                assert(self@.flows[f as int] == self.flows@[f as int]@);
            }
            amounts.push(self.flows[f].funded_total - self.flows[f].book.totals.distributed_total);
            f = f + 1;
        }
        let r: Vec<AssetValidated> = self.with_assets(&amounts);
        assert(rewards_view(r@) =~= Seq::new(
            self@.flows.len(),
            |f: int|
                (
                    self@.flows[f].asset,
                    (self@.flows[f].funded_total
                        - self@.flows[f].book.totals.distributed_total) as u128,
                ),
        ));
        r
    }

    /// The power that `address` has in each flow: the flow's asset and the
    /// power, in the order of the flows. An address that has never staked
    /// has none.
    pub fn rewards_power(&self, address: &str) -> (r: Vec<(AssetInfoValidated, u128)>)
        requires
            self.inv(),
        ensures
            powers_view(r@) == Seq::new(
                self@.flows.len(),
                |f: int| (self@.flows[f].asset, self@.power_in(f, address@) as u128),
            ),
    {
        let name: String = address.to_owned();
        let known: Option<usize> = self.find_staker(&name);
        let n: usize = self.flows.len();
        let mut out: Vec<(AssetInfoValidated, u128)> = Vec::new();
        let mut f: usize = 0;
        let ghost target = Seq::new(
            self@.flows.len(),
            |f: int| (self@.flows[f].asset, self@.power_in(f, address@) as u128),
        );
        while f < n
            invariant
                self.inv(),
                n == self.flows@.len(),
                0 <= f <= n,
                out@.len() == f,
                name@ == address@,
                match known {
                    Some(s) => self@.staker(name@) == Some(s as int) && s < self@.stakers.len(),
                    None => self@.staker(name@) == None::<int>,
                },
                target == Seq::new(
                    self@.flows.len(),
                    |f: int| (self@.flows[f].asset, self@.power_in(f, address@) as u128),
                ),
                forall|g: int|
                    0 <= g < f ==> ((#[trigger] out@[g]).0@, out@[g].1) == target[g],
            decreases n - f,
        {
            proof {
                assert(self@.flow_inv(f as int));
                assert(self@.flows[f as int] == self.flows@[f as int]@);
            }
            let power: u128 = match known {
                Some(s) => self.flows[f].book.account(s).power,
                None => 0,
            };
            out.push((self.flows[f].asset.clone(), power));
            f = f + 1;
        }
        assert(powers_view(out@) =~= target);
        out
    }

    /// The power of all stakers together in each flow.
    pub fn total_rewards_power(&self) -> (r: Vec<(AssetInfoValidated, u128)>)
        ensures
            powers_view(r@) == Seq::new(
                self@.flows.len(),
                |f: int| (self@.flows[f].asset, self@.flows[f].book.totals.total_power as u128),
            ),
    {
        let n: usize = self.flows.len();
        let mut out: Vec<(AssetInfoValidated, u128)> = Vec::new();
        let mut f: usize = 0;
        let ghost target = Seq::new(
            self@.flows.len(),
            |f: int| (self@.flows[f].asset, self@.flows[f].book.totals.total_power as u128),
        );
        while f < n
            invariant
                n == self.flows@.len(),
                0 <= f <= n,
                out@.len() == f,
                target == Seq::new(
                    self@.flows.len(),
                    |f: int|
                        (self@.flows[f].asset, self@.flows[f].book.totals.total_power as u128),
                ),
                forall|g: int|
                    0 <= g < f ==> ((#[trigger] out@[g]).0@, out@[g].1) == target[g],
            decreases n - f,
        {
            out.push((self.flows[f].asset.clone(), self.flows[f].book.totals.total_power));
            f = f + 1;
        }
        assert(powers_view(out@) =~= target);
        out
    }

    /// The tokens that `address` has bonded for `period`: none for an
    /// address that has never staked.
    ///
    /// Fails exactly when the period is no tier of the ledger.
    pub fn staked(&self, address: &str, period: u64) -> (r: Result<u128, ContractError>)
        requires
            self.inv(),
        ensures
            r == (match self@.tier(period) {
                Some(t) => Ok::<u128, ContractError>(self@.staked(address@, t)),
                None => Err(ContractError::NoUnbondingPeriodFound { period }),
            }),
    {
        let t: usize = match find_period(&self.config.unbonding_periods, period) {
            Some(t) => t,
            None => {
                return Err(ContractError::NoUnbondingPeriodFound { period });
            },
        };
        let name: String = address.to_owned();
        match self.find_staker(&name) {
            Some(s) => {
                assert(self@.stakers[s as int] == self.stakers@[s as int]@);
                Ok(self.stakers[s].stakes[t])
            },
            None => Ok(0),
        }
    }
}


/// The yearly rewards of a token, by flow.
pub open spec fn rates_view(rates: Seq<AnnualizedReward>) -> Seq<(AssetModel, Option<Decimal>)> {
    Seq::new(rates.len(), |i: int| rates[i]@)
}

/// The yearly rewards of a token, by tier and flow.
pub open spec fn rows_view(rows: Seq<(u64, Vec<AnnualizedReward>)>) -> Seq<
    (u64, Seq<(AssetModel, Option<Decimal>)>),
> {
    Seq::new(rows.len(), |i: int| (rows[i].0, rates_view(rows[i].1@)))
}

impl Ledger {
    /// The power that all stakers have together in tier `t` of flow `f`;
    /// `None` exactly when it cannot be computed or added up.
    fn tier_total(&self, f: usize, t: usize) -> (r: Option<u128>)
        requires
            self.inv(),
            f < self@.flows.len(),
            t < self@.periods.len(),
        ensures
            r is Some <==> !self@.tier_total_fails(f as int, t as int),
            r matches Some(v) ==> v == self@.tier_total(
                f as int,
                t as int,
                self@.stakers.len() as int,
            ),
    {
        let n: usize = self.stakers.len();
        proof {
            assert(self@.flow_inv(f as int));
            assert(self@.flows[f as int] == self.flows@[f as int]@);
        }
        let multiplier: Decimal = self.flows[f].multipliers[t];
        let mut total: u128 = 0;
        let mut s: usize = 0;
        while s < n
            invariant
                self.inv(),
                f < self@.flows.len(),
                t < self@.periods.len(),
                n == self@.stakers.len(),
                n == self.stakers@.len(),
                0 <= s <= n,
                multiplier == self@.flows[f as int].multipliers[t as int],
                total == self@.tier_total(f as int, t as int, s as int),
                forall|k: int|
                    0 <= k <= s ==> #[trigger] self@.tier_total(f as int, t as int, k) <= u128::MAX,
                forall|k: int|
                    0 <= k < s ==> crate::stake::tier_power_result(
                        self@.tokens_per_power,
                        self@.min_bond,
                        (#[trigger] self@.stakers[k]).stakes[t as int] as int,
                        multiplier,
                    ) is Ok,
            decreases n - s,
        {
            proof {
                assert(self@.stakers[s as int] == self.stakers@[s as int]@);
            }
            let part: u128 = match calc_power(&self.config, self.stakers[s].stakes[t], multiplier) {
                Ok(v) => v,
                Err(_) => {
                    return None;
                },
            };
            total = match total.checked_add(part) {
                Some(v) => v,
                None => {
                    assert(self@.tier_total(f as int, t as int, s + 1) > u128::MAX);
                    return None;
                },
            };
            s = s + 1;
        }
        Some(total)
    }

    /// The yearly reward of one token in tier `t` of flow `f`.
    fn rate(&self, f: usize, t: usize, now: u64) -> (r: Result<Option<Decimal>, ContractError>)
        requires
            self.inv(),
            f < self@.flows.len(),
            t < self@.periods.len(),
        ensures
            r is Err <==> self@.rate_fails(f as int, t as int, now),
            r matches Ok(rate) ==> rate == self@.rate(f as int, t as int, now),
            r matches Err(e) ==> e == (ContractError::Overflow {  }),
    {
        let tier_power: u128 = match self.tier_total(f, t) {
            Some(v) => v,
            None => {
                return Err(ContractError::Overflow {  });
            },
        };
        proof {
            assert(self@.flow_inv(f as int));
            assert(self@.flows[f as int] == self.flows@[f as int]@);
        }
        let flow: &Flow = &self.flows[f];
        if tier_power == 0 || flow.book.totals.total_power == 0 {
            return Ok(None);
        }
        let annual: Decimal = match annualized_payout(&flow.curve, now) {
            Some(v) => v,
            None => {
                return Err(ContractError::Overflow {  });
            },
        };
        match rate_per_token(
            annual,
            flow.book.totals.total_power,
            flow.multipliers[t],
            self.config.tokens_per_power,
        ) {
            Some(v) => Ok(Some(v)),
            None => Err(ContractError::Overflow {  }),
        }
    }

    /// The yearly rewards of one token in tier `t`, one for each flow.
    fn rates(&self, t: usize, now: u64) -> (r: Result<Vec<AnnualizedReward>, ContractError>)
        requires
            self.inv(),
            t < self@.periods.len(),
        ensures
            r is Err <==> self@.rates_fail(t as int, now),
            r matches Ok(row) ==> rates_view(row@) == self@.rates(t as int, now),
            r matches Err(e) ==> e == (ContractError::Overflow {  }),
    {
        let n: usize = self.flows.len();
        let mut row: Vec<AnnualizedReward> = Vec::new();
        let mut f: usize = 0;
        while f < n
            invariant
                self.inv(),
                t < self@.periods.len(),
                n == self@.flows.len(),
                n == self.flows@.len(),
                0 <= f <= n,
                row@.len() == f,
                forall|g: int| 0 <= g < f ==> !#[trigger] self@.rate_fails(g, t as int, now),
                forall|g: int|
                    0 <= g < f ==> (#[trigger] row@[g])@ == self@.rates(t as int, now)[g],
            decreases n - f,
        {
            let amount: Option<Decimal> = match self.rate(f, t, now) {
                Ok(v) => v,
                Err(e) => {
                    return Err(e);
                },
            };
            proof {
                assert(self@.flows[f as int] == self.flows@[f as int]@);
            }
            row.push(AnnualizedReward { info: self.flows[f].asset.clone(), amount });
            f = f + 1;
        }
        assert(rates_view(row@) =~= self@.rates(t as int, now));
        Ok(row)
    }

    /// The yearly reward of one bonded token, as projected at `now`: for
    /// each tier, in the ledger's order, its unbonding period and the
    /// reward in the asset of each flow, in the flows' order. The reward is
    /// nothing where the tier has no power in the flow.
    ///
    /// Fails with an overflow exactly when a reward cannot be computed in
    /// 128 bits.
    pub fn annualized_rewards(&self, now: u64) -> (r: Result<
        Vec<(u64, Vec<AnnualizedReward>)>,
        ContractError,
    >)
        requires
            self.inv(),
        ensures
            r is Err <==> exists|t: int|
                0 <= t < self@.periods.len() && #[trigger] self@.rates_fail(t, now),
            r matches Ok(rows) ==> rows_view(rows@) == Seq::new(
                self@.periods.len(),
                |t: int| (self@.periods[t], self@.rates(t, now)),
            ),
            r matches Err(e) ==> e == (ContractError::Overflow {  }),
    {
        let n: usize = self.config.unbonding_periods.len();
        let mut rows: Vec<(u64, Vec<AnnualizedReward>)> = Vec::new();
        let mut t: usize = 0;
        while t < n
            invariant
                self.inv(),
                n == self@.periods.len(),
                n == self.config.unbonding_periods@.len(),
                0 <= t <= n,
                rows@.len() == t,
                forall|u: int| 0 <= u < t ==> !#[trigger] self@.rates_fail(u, now),
                forall|u: int|
                    0 <= u < t ==> (#[trigger] rows@[u]).0 == self@.periods[u] && rates_view(
                        rows@[u].1@,
                    ) == self@.rates(u, now),
            decreases n - t,
        {
            let row: Vec<AnnualizedReward> = match self.rates(t, now) {
                Ok(v) => v,
                Err(e) => {
                    return Err(e);
                },
            };
            rows.push((self.config.unbonding_periods[t], row));
            t = t + 1;
        }
        assert(rows_view(rows@) =~= Seq::new(
            self@.periods.len(),
            |t: int| (self@.periods[t], self@.rates(t, now)),
        ));
        Ok(rows)
    }
}

} // verus!
