//! What holds of the staking ledger, whatever its stakers and managers do.

use vstd::prelude::*;
use vstd::arithmetic::div_mod::lemma_fundamental_div_mod;
use crate::book::{
    lemma_change_power_keeps_balance,
    lemma_withdraw_keeps_balance,
    sum_withdrawn,
    BookModel,
    SHARE,
};
use crate::book_laws::{lemma_sum_pending, sum_pending};
use crate::asset::AssetModel;
use crate::curve::CurveModel;
use crate::ledger_model::{
    lemma_create_flow_keeps_inv,
    lemma_delegate_withdrawal_keeps_inv,
    lemma_deposit_keeps_inv,
    lemma_distribute_keeps_inv,
    lemma_fund_keeps_inv,
    lemma_register_keeps_inv,
    lemma_release_keeps_flow,
    lemma_restake_keeps_inv,
    lemma_withdraw_keeps_inv,
    LedgerModel,
};
use crate::lookup::{lemma_found, occurs};
use crate::error::ContractError;
use crate::math::Decimal;
use crate::stake::{lemma_power_nonnegative, power_of};

verus! {

/// Nothing is lost and nothing is paid twice. In every flow of a sound
/// ledger, and so after any sequence of fundings, releases, changes of
/// positions and withdrawals, since each of them leaves the ledger sound:
/// the units withdrawn, the shares earned and not yet withdrawn, and the
/// leftover add up to exactly the units released, counted in shares; the
/// units withdrawn and the units held for withdrawal are the units released;
/// and no more is released than was funded.
pub proof fn law_no_loss(ledger: LedgerModel, f: int)
    requires
        ledger.inv(),
        0 <= f < ledger.flows.len(),
    ensures
        ({
            let flow = ledger.flows[f];
            let book = flow.book;
            &&& sum_withdrawn(book.accounts) * SHARE + sum_pending(
                book.accounts,
                book.totals.shares_per_point,
            ) + book.totals.shares_leftover == book.totals.distributed_total * SHARE
            &&& sum_withdrawn(book.accounts) + book.totals.withdrawable_total
                == book.totals.distributed_total
            &&& book.totals.distributed_total <= flow.funded_total
        }),
{
    assert(ledger.flow_inv(f));
    let book = ledger.flows[f].book;
    lemma_sum_pending(book.accounts, book.totals.shares_per_point);
}

/// A mass delegation to two addresses leaves the ledger as two delegations
/// do, one after the other, and fails as they do.
pub proof fn law_mass_delegation_is_sequential(
    ledger: LedgerModel,
    amount: u128,
    period: u64,
    first: (Seq<char>, u128),
    second: (Seq<char>, u128),
    now: u64,
)
    requires
        ledger.tier(period) is Some,
        first.1 + second.1 <= amount,
    ensures
        ledger.mass_delegate(amount, period, seq![first, second], now) == (
        match ledger.delegate_error(first.0, period, first.1, now) {
            Some(e) => Err::<LedgerModel, ContractError>(e),
            None => {
                let once = ledger.delegate(first.0, period, first.1, now);
                match once.delegate_error(second.0, period, second.1, now) {
                    Some(e) => Err(e),
                    None => Ok(once.delegate(second.0, period, second.1, now)),
                }
            },
        }),
{
    let shares = seq![first, second];
    assert(crate::ledger_model::shares_sum(shares, 2) == first.1 + second.1) by {
        assert(crate::ledger_model::shares_sum(shares, 0) == 0);
        assert(crate::ledger_model::shares_sum(shares, 1) == first.1);
    }
    assert(ledger.mass_delegate_upto(period, shares, now, 0) == Ok::<LedgerModel, ContractError>(
        ledger,
    ));
    let one = ledger.mass_delegate_upto(period, shares, now, 1);
    assert(one == (match ledger.delegate_error(first.0, period, first.1, now) {
        Some(e) => Err::<LedgerModel, ContractError>(e),
        None => Ok(ledger.delegate(first.0, period, first.1, now)),
    }));
    assert(ledger.mass_delegate_upto(period, shares, now, 2) == (match one {
        Err(e) => Err::<LedgerModel, ContractError>(e),
        Ok(once) => match once.delegate_error(second.0, period, second.1, now) {
            Some(e) => Err(e),
            None => Ok(once.delegate(second.0, period, second.1, now)),
        },
    }));
}

/// A change of positions is not applied to the past. In every flow, what
/// each staker has earned right after a change of positions is what the
/// staker had earned by the release that comes with the change: the staker
/// that changes keeps what the old power has earned, and earns by the new
/// power from then on.
pub proof fn law_change_keeps_earned(
    ledger: LedgerModel,
    s: int,
    stakes: Seq<u128>,
    now: u64,
    f: int,
    j: int,
)
    requires
        ledger.inv(),
        ledger.min_bond >= 0,
        0 <= s < ledger.stakers.len(),
        0 <= j < ledger.stakers.len(),
        0 <= f < ledger.flows.len(),
        stakes.len() == ledger.periods.len(),
        !ledger.restake_fails(s, stakes, now),
    ensures
        ({
            let released = ledger.flows[f].release(now).book;
            let after = ledger.restake(s, stakes, now).flows[f].book;
            &&& after.totals.shares_per_point == released.totals.shares_per_point
            &&& after.accounts[j].earned(after.totals.shares_per_point)
                == released.accounts[j].earned(released.totals.shares_per_point)
            &&& after.owed(j) == released.owed(j)
            &&& after.accounts[s].power == ledger.power(f, stakes)
        }),
{
    assert(ledger.flow_inv(f));
    assert(!ledger.restake_fails_in(f, s, stakes, now));
    lemma_release_keeps_flow(ledger, f, now);
    lemma_power_nonnegative(
        ledger.tokens_per_power,
        ledger.min_bond,
        stakes,
        ledger.flows[f].multipliers,
    );
    let released = ledger.flows[f].release(now).book;
    lemma_change_power_keeps_balance(released, s, ledger.power(f, stakes));
    let after = ledger.restake(s, stakes, now).flows[f].book;
    assert(after.accounts[j].withdrawn == released.accounts[j].withdrawn);
}

/// A position below the minimum bond has no power, whatever its tier's
/// multiplier: its staker takes no share of a release on its account.
pub proof fn law_below_minimum_no_power(
    tokens_per_power: int,
    min_bond: int,
    stakes: Seq<u128>,
    multipliers: Seq<Decimal>,
)
    requires
        forall|t: int| 0 <= t < stakes.len() ==> stakes[t] < min_bond,
    ensures
        power_of(tokens_per_power, min_bond, stakes, multipliers) == 0,
    decreases stakes.len(),
{
    if stakes.len() > 0 && multipliers.len() == stakes.len() {
        let front = stakes.drop_last();
        assert forall|t: int| 0 <= t < front.len() implies front[t] < min_bond by {
            assert(front[t] == stakes[t]);
        }
        law_below_minimum_no_power(tokens_per_power, min_bond, front, multipliers.drop_last());
        assert(stakes.last() == stakes[stakes.len() - 1]);
    }
}

/// A staker that has all the power of a flow takes all of a release: what
/// the staker earns by it, and what waits as leftover after it, is what
/// was released and what waited as leftover before.
pub proof fn law_sole_power_takes_all(book: BookModel, amount: int, j: int)
    requires
        book.inv(),
        book.distributes(amount),
        0 <= j < book.accounts.len(),
        book.accounts[j].power == book.totals.total_power,
    ensures
        ({
            let after = book.distribute(amount);
            after.accounts[j].earned(after.totals.shares_per_point) + after.totals.shares_leftover
                == book.accounts[j].earned(book.totals.shares_per_point) + amount * SHARE
                + book.totals.shares_leftover
        }),
{
    let t = book.totals.total_power;
    let n = book.shares_to_divide(amount);
    lemma_fundamental_div_mod(n, t);
    let q = n / t;
    assert(t * (book.totals.shares_per_point + q) == t * book.totals.shares_per_point + t * q)
        by (nonlinear_arith);
}

/// Settlement is idempotent: a staker that withdraws twice in a row, with
/// no funding and no change of power between, is paid nothing by any flow
/// the second time.
pub proof fn law_second_withdrawal_pays_nothing(ledger: LedgerModel, s: int, now: u64, f: int)
    requires
        ledger.inv(),
        ledger.min_bond >= 0,
        0 <= s < ledger.stakers.len(),
        0 <= f < ledger.flows.len(),
        !ledger.withdraw_fails(s, now),
    ensures
        ledger.withdraw(s, now).flows[f].payout(now, s) == 0,
        !ledger.withdraw(s, now).flows[f].release_fails(now),
        ledger.withdraw(s, now).flows[f].release(now) == ledger.withdraw(s, now).flows[f],
{
    assert(ledger.flow_inv(f));
    assert(!ledger.withdraw_fails_in(f, s, now));
    lemma_release_keeps_flow(ledger, f, now);
    let flow = ledger.flows[f];
    let released = flow.release(now).book;
    lemma_withdraw_keeps_balance(released, s);
    let once = ledger.withdraw(s, now).flows[f];
    assert(once.book.totals.total_power == flow.book.totals.total_power);
    if flow.book.totals.distributes(flow.releasable(now)) {
        assert(once.releasable(now) == 0);
    }
    assert(!once.book.totals.distributes(once.releasable(now)));
    assert(once.release(now).book == once.book);
    assert(once.release(now) == once);
}


/// Something that is asked of the ledger.
pub ghost enum LedgerEvent {
    Delegate { address: Seq<char>, period: u64, amount: u128 },
    Unbond { address: Seq<char>, period: u64, amount: u128 },
    Rebond { address: Seq<char>, amount: u128, from: u64, to: u64 },
    MassDelegate { amount: u128, period: u64, shares: Seq<(Seq<char>, u128)> },
    CreateFlow {
        sender: Seq<char>,
        manager: Seq<char>,
        asset: AssetModel,
        rewards: Seq<(u64, Decimal)>,
    },
    /// A funding of flow `flow` after which the flow's schedule is `curve`.
    Fund { flow: int, amount: u128, curve: CurveModel },
    Deposit { asset: AssetModel, amount: u128 },
    Distribute,
    Withdraw { sender: Seq<char>, owner: Seq<char> },
    DelegateWithdrawal { owner: Seq<char>, receiver: Seq<char> },
}

/// The ledger after `event` at `now`: what the operation makes of it where
/// it goes through, and the ledger as it was where the operation fails.
pub open spec fn after_event(ledger: LedgerModel, event: LedgerEvent, now: u64) -> LedgerModel {
    match event {
        LedgerEvent::Delegate { address, period, amount } => if ledger.delegate_error(
            address,
            period,
            amount,
            now,
        ) is None {
            ledger.delegate(address, period, amount, now)
        } else {
            ledger
        },
        LedgerEvent::Unbond { address, period, amount } => if ledger.unbond_error(
            address,
            period,
            amount,
            now,
        ) is None {
            ledger.unbond(address, period, amount, now)
        } else {
            ledger
        },
        LedgerEvent::Rebond { address, amount, from, to } => if ledger.rebond_error(
            address,
            amount,
            from,
            to,
            now,
        ) is None {
            ledger.rebond(address, amount, from, to, now)
        } else {
            ledger
        },
        LedgerEvent::MassDelegate { amount, period, shares } => match ledger.mass_delegate(
            amount,
            period,
            shares,
            now,
        ) {
            Ok(after) => after,
            Err(_) => ledger,
        },
        LedgerEvent::CreateFlow { sender, manager, asset, rewards } => if ledger.create_flow_error(
            sender,
            asset,
            rewards,
        ) is None {
            ledger.create_flow(manager, asset, rewards)
        } else {
            ledger
        },
        LedgerEvent::Fund { flow, amount, curve } => if 0 <= flow < ledger.flows.len()
            && !ledger.flows[flow].release_fails(now) && curve.falls() {
            ledger.funded(flow, amount, curve, now)
        } else {
            ledger
        },
        LedgerEvent::Deposit { asset, amount } => if ledger.deposit_error(asset, amount) is None {
            ledger.deposit(asset, amount)
        } else {
            ledger
        },
        LedgerEvent::Distribute => if ledger.distribute_fails(now) {
            ledger
        } else {
            ledger.distribute(now)
        },
        LedgerEvent::Withdraw { sender, owner } => if ledger.withdraw_error(sender, owner, now)
            is None {
            ledger.withdraw_rewards(owner, now)
        } else {
            ledger
        },
        LedgerEvent::DelegateWithdrawal { owner, receiver } => ledger.delegate_withdrawal(
            owner,
            receiver,
        ),
    }
}

/// The ledger after all of `events`, each at its time, in their order.
pub open spec fn after_events(ledger: LedgerModel, events: Seq<(LedgerEvent, u64)>) -> LedgerModel
    decreases events.len(),
{
    if events.len() == 0 {
        ledger
    } else {
        after_event(after_events(ledger, events.drop_last()), events.last().0, events.last().1)
    }
}

/// A staker of a sound ledger has an index among the stakers and a
/// position in each tier; an address that is no staker has positions
/// without tokens.
pub proof fn lemma_staker_positions(ledger: LedgerModel, address: Seq<char>)
    requires
        ledger.inv(),
    ensures
        ledger.stakes_of(address).len() == ledger.periods.len(),
        0 <= ledger.staker_slot(address) < ledger.with_staker(address).stakers.len(),
        ledger.staker(address) is Some ==> ledger.staker_slot(address) < ledger.stakers.len(),
{
    if occurs(ledger.addresses(), address) {
        lemma_found(ledger.addresses(), address);
    }
}

/// A tier of the ledger has an index among its periods.
pub proof fn lemma_tier_in_range(ledger: LedgerModel, period: u64)
    requires
        ledger.tier(period) is Some,
    ensures
        0 <= ledger.tier(period).unwrap() < ledger.periods.len(),
{
    lemma_found(ledger.periods, period);
}

/// A change of the positions of an address, registered where new, keeps the
/// ledger sound where it does not fail.
pub proof fn lemma_bond_keeps_inv(
    ledger: LedgerModel,
    address: Seq<char>,
    stakes: Seq<u128>,
    now: u64,
)
    requires
        ledger.inv(),
        ledger.min_bond >= 0,
        stakes.len() == ledger.periods.len(),
        !ledger.bond_fails(address, stakes, now),
    ensures
        ledger.bond(address, stakes, now).inv(),
        ledger.bond(address, stakes, now).min_bond == ledger.min_bond,
{
    lemma_staker_positions(ledger, address);
    if ledger.staker(address) is None {
        lemma_register_keeps_inv(ledger, address);
    }
    lemma_restake_keeps_inv(
        ledger.with_staker(address),
        ledger.staker_slot(address),
        stakes,
        now,
    );
}

/// A delegation keeps the ledger sound.
pub proof fn lemma_delegate_keeps_inv(
    ledger: LedgerModel,
    address: Seq<char>,
    period: u64,
    amount: u128,
    now: u64,
)
    requires
        ledger.inv(),
        ledger.min_bond >= 0,
        ledger.delegate_error(address, period, amount, now) is None,
    ensures
        ledger.delegate(address, period, amount, now).inv(),
        ledger.delegate(address, period, amount, now).min_bond == ledger.min_bond,
{
    lemma_staker_positions(ledger, address);
    lemma_tier_in_range(ledger, period);
    lemma_bond_keeps_inv(
        ledger,
        address,
        ledger.stakes_with_more(address, ledger.tier(period).unwrap(), amount),
        now,
    );
}

/// A mass delegation keeps the ledger sound, as far as it gets.
pub proof fn lemma_mass_delegate_keeps_inv(
    ledger: LedgerModel,
    period: u64,
    shares: Seq<(Seq<char>, u128)>,
    now: u64,
    k: int,
)
    requires
        ledger.inv(),
        ledger.min_bond >= 0,
    ensures
        ledger.mass_delegate_upto(period, shares, now, k) matches Ok(after) ==> after.inv()
            && after.min_bond == ledger.min_bond,
    decreases k,
{
    if k > 0 {
        lemma_mass_delegate_keeps_inv(ledger, period, shares, now, k - 1);
        match ledger.mass_delegate_upto(period, shares, now, k - 1) {
            Ok(before) => {
                if before.delegate_error(shares[k - 1].0, period, shares[k - 1].1, now) is None {
                    lemma_delegate_keeps_inv(before, shares[k - 1].0, period, shares[k - 1].1, now);
                }
            },
            Err(_) => {},
        }
    }
}

/// Whatever is asked of a sound ledger, it stays sound.
pub proof fn law_event_keeps_sound(ledger: LedgerModel, event: LedgerEvent, now: u64)
    requires
        ledger.inv(),
        ledger.min_bond >= 0,
    ensures
        after_event(ledger, event, now).inv(),
        after_event(ledger, event, now).min_bond == ledger.min_bond,
{
    match event {
        LedgerEvent::Delegate { address, period, amount } => {
            if ledger.delegate_error(address, period, amount, now) is None {
                lemma_delegate_keeps_inv(ledger, address, period, amount, now);
            }
        },
        LedgerEvent::Unbond { address, period, amount } => {
            if ledger.unbond_error(address, period, amount, now) is None {
                lemma_staker_positions(ledger, address);
                lemma_tier_in_range(ledger, period);
                lemma_bond_keeps_inv(
                    ledger,
                    address,
                    ledger.stakes_with_less(address, ledger.tier(period).unwrap(), amount),
                    now,
                );
            }
        },
        LedgerEvent::Rebond { address, amount, from, to } => {
            if ledger.rebond_error(address, amount, from, to, now) is None {
                lemma_staker_positions(ledger, address);
                lemma_tier_in_range(ledger, from);
                lemma_tier_in_range(ledger, to);
                lemma_bond_keeps_inv(
                    ledger,
                    address,
                    ledger.stakes_moved(
                        address,
                        ledger.tier(from).unwrap(),
                        ledger.tier(to).unwrap(),
                        amount,
                    ),
                    now,
                );
            }
        },
        LedgerEvent::MassDelegate { amount, period, shares } => {
            lemma_mass_delegate_keeps_inv(ledger, period, shares, now, shares.len() as int);
        },
        LedgerEvent::CreateFlow { sender, manager, asset, rewards } => {
            if ledger.create_flow_error(sender, asset, rewards) is None {
                lemma_create_flow_keeps_inv(ledger, manager, asset, rewards);
            }
        },
        LedgerEvent::Fund { flow, amount, curve } => {
            if 0 <= flow < ledger.flows.len() && !ledger.flows[flow].release_fails(now)
                && curve.falls() {
                lemma_fund_keeps_inv(ledger, flow, amount, curve, now);
            }
        },
        LedgerEvent::Deposit { asset, amount } => {
            if ledger.deposit_error(asset, amount) is None {
                lemma_found(ledger.assets(), asset);
                lemma_deposit_keeps_inv(ledger, asset, amount);
            }
        },
        LedgerEvent::Distribute => {
            if !ledger.distribute_fails(now) {
                lemma_distribute_keeps_inv(ledger, now);
            }
        },
        LedgerEvent::Withdraw { sender, owner } => {
            if ledger.withdraw_error(sender, owner, now) is None && ledger.staker(owner) is Some {
                lemma_staker_positions(ledger, owner);
                lemma_withdraw_keeps_inv(ledger, ledger.staker(owner).unwrap(), now);
            }
        },
        LedgerEvent::DelegateWithdrawal { owner, receiver } => {
            lemma_staker_positions(ledger, owner);
            lemma_delegate_withdrawal_keeps_inv(ledger, owner, receiver);
        },
    }
}

/// After any sequence of operations on a sound ledger, at any times, the
/// ledger is sound, and with it every flow's book balances: nothing that
/// was funded is lost, and nothing is paid twice.
pub proof fn law_events_keep_sound(ledger: LedgerModel, events: Seq<(LedgerEvent, u64)>, f: int)
    requires
        ledger.inv(),
        ledger.min_bond >= 0,
    ensures
        after_events(ledger, events).inv(),
        after_events(ledger, events).min_bond == ledger.min_bond,
        0 <= f < after_events(ledger, events).flows.len() ==> ({
            let flow = after_events(ledger, events).flows[f];
            let book = flow.book;
            &&& sum_withdrawn(book.accounts) * SHARE + sum_pending(
                book.accounts,
                book.totals.shares_per_point,
            ) + book.totals.shares_leftover == book.totals.distributed_total * SHARE
            &&& sum_withdrawn(book.accounts) + book.totals.withdrawable_total
                == book.totals.distributed_total
            &&& book.totals.distributed_total <= flow.funded_total
        }),
    decreases events.len(),
{
    if events.len() > 0 {
        law_events_keep_sound(ledger, events.drop_last(), f);
        law_event_keeps_sound(
            after_events(ledger, events.drop_last()),
            events.last().0,
            events.last().1,
        );
    }
    if 0 <= f < after_events(ledger, events).flows.len() {
        law_no_loss(after_events(ledger, events), f);
    }
}

} // verus!
