//! What holds of the accounts of a distribution flow, whatever happens to
//! them.

use vstd::prelude::*;
use vstd::arithmetic::div_mod::{lemma_fundamental_div_mod, lemma_fundamental_div_mod_converse, lemma_mod_bound};
use crate::book::{
    AccountModel,
    BookModel,
    SHARE,
    lemma_change_power_keeps_balance,
    lemma_distribute_keeps_balance,
    lemma_open_account_keeps_balance,
    lemma_withdraw_keeps_balance,
    sum_earned,
    sum_withdrawn,
};

verus! {

/// Something that happens to the accounts of a flow.
pub ghost enum BookEvent {
    /// A staker joins.
    Open,
    /// Units are released to the stakers.
    Release { amount: nat },
    /// The staker with the given account changes power.
    ChangePower { account: int, power: nat },
    /// The staker with the given account withdraws.
    Withdraw { account: int },
}

/// The book after `event`. An event that names no account of the book, and
/// a release of nothing or to nobody, changes nothing.
pub open spec fn after_event(book: BookModel, event: BookEvent) -> BookModel {
    match event {
        BookEvent::Open => book.open_account(),
        BookEvent::Release { amount } => book.release(amount as int),
        BookEvent::ChangePower { account, power } => if 0 <= account < book.accounts.len() {
            book.change_power(account, power as int)
        } else {
            book
        },
        BookEvent::Withdraw { account } => if 0 <= account < book.accounts.len() {
            book.withdraw(account)
        } else {
            book
        },
    }
}

/// The book after all of `events`, in their order.
pub open spec fn after_events(book: BookModel, events: Seq<BookEvent>) -> BookModel
    decreases events.len(),
{
    if events.len() == 0 {
        book
    } else {
        after_event(after_events(book, events.drop_last()), events.last())
    }
}

/// The shares that the accounts have earned and not yet withdrawn.
pub open spec fn sum_pending(accounts: Seq<AccountModel>, shares_per_point: int) -> int
    decreases accounts.len(),
{
    if accounts.len() == 0 {
        0
    } else {
        sum_pending(accounts.drop_last(), shares_per_point) + (accounts.last().earned(
            shares_per_point,
        ) - accounts.last().withdrawn * SHARE)
    }
}

/// The shares earned and not yet withdrawn are the shares earned less the
/// units withdrawn.
pub proof fn lemma_sum_pending(accounts: Seq<AccountModel>, shares_per_point: int)
    ensures
        sum_pending(accounts, shares_per_point) == sum_earned(accounts, shares_per_point)
            - sum_withdrawn(accounts) * SHARE,
    decreases accounts.len(),
{
    if accounts.len() > 0 {
        let front = accounts.drop_last();
        let a = accounts.last();
        lemma_sum_pending(front, shares_per_point);
        assert((sum_withdrawn(front) + a.withdrawn) * SHARE == sum_withdrawn(front) * SHARE
            + a.withdrawn * SHARE) by (nonlinear_arith);
    }
}

/// No event unbalances a balanced book.
pub proof fn law_event_keeps_balance(book: BookModel, event: BookEvent)
    requires
        book.inv(),
    ensures
        after_event(book, event).inv(),
{
    match event {
        BookEvent::Open => {
            lemma_open_account_keeps_balance(book);
        },
        BookEvent::Release { amount } => {
            if book.distributes(amount as int) {
                lemma_distribute_keeps_balance(book, amount as int);
            }
        },
        BookEvent::ChangePower { account, power } => {
            if 0 <= account < book.accounts.len() {
                lemma_change_power_keeps_balance(book, account, power as int);
            }
        },
        BookEvent::Withdraw { account } => {
            if 0 <= account < book.accounts.len() {
                lemma_withdraw_keeps_balance(book, account);
            }
        },
    }
}

/// Nothing is lost and nothing is paid twice: after any sequence of joins,
/// releases, changes of power and withdrawals on a new book, the units
/// withdrawn, the shares earned and not yet withdrawn, and the leftover add
/// up to exactly the units released, counted in shares. And the units
/// withdrawn and the units that the book holds for withdrawal are the units
/// released.
pub proof fn law_no_loss(events: Seq<BookEvent>)
    ensures
        ({
            let book = after_events(BookModel::empty(), events);
            &&& book.inv()
            &&& sum_withdrawn(book.accounts) * SHARE + sum_pending(
                book.accounts,
                book.totals.shares_per_point,
            ) + book.totals.shares_leftover == book.totals.distributed_total * SHARE
            &&& sum_withdrawn(book.accounts) + book.totals.withdrawable_total == book.totals.distributed_total
        }),
    decreases events.len(),
{
    if events.len() > 0 {
        law_no_loss(events.drop_last());
        law_event_keeps_balance(
            after_events(BookModel::empty(), events.drop_last()),
            events.last(),
        );
    }
    let book = after_events(BookModel::empty(), events);
    lemma_sum_pending(book.accounts, book.totals.shares_per_point);
}

/// A second withdrawal right after a first pays nothing and changes
/// nothing.
pub proof fn law_second_withdrawal_pays_nothing(book: BookModel, i: int)
    requires
        book.inv(),
        0 <= i < book.accounts.len(),
    ensures
        book.withdraw(i).owed(i) == 0,
        book.withdraw(i).withdraw(i) == book.withdraw(i),
{
    lemma_withdraw_keeps_balance(book, i);
    let once = book.withdraw(i);
    let twice = once.withdraw(i);
    assert(twice.accounts =~= once.accounts);
}

/// A change of power is not applied to the past: what an account has earned,
/// and what it can withdraw, is the same right after the change as before
/// it, for the account that changes and for every other.
pub proof fn law_power_change_keeps_earned(book: BookModel, i: int, power: int, j: int)
    requires
        book.inv(),
        0 <= i < book.accounts.len(),
        0 <= j < book.accounts.len(),
        power >= 0,
    ensures
        book.change_power(i, power).accounts[j].earned(book.totals.shares_per_point)
            == book.accounts[j].earned(book.totals.shares_per_point),
        book.change_power(i, power).owed(j) == book.owed(j),
{
    lemma_change_power_keeps_balance(book, i, power);
    let after = book.change_power(i, power);
    assert(after.accounts[j].withdrawn == book.accounts[j].withdrawn);
}

/// A release pays each account by the power that it holds at the release:
/// the account earns its power times the growth of the accumulator, and an
/// account without power earns nothing.
pub proof fn law_release_pays_by_power(book: BookModel, amount: int, j: int)
    requires
        book.inv(),
        book.distributes(amount),
        0 <= j < book.accounts.len(),
    ensures
        book.distribute(amount).accounts[j].earned(book.distribute(amount).totals.shares_per_point)
            == book.accounts[j].earned(book.totals.shares_per_point) + book.accounts[j].power * (
            book.shares_to_divide(amount) / book.totals.total_power),
        book.accounts[j].power == 0 ==> book.distribute(amount).owed(j) == book.owed(j),
{
    let a = book.accounts[j];
    let q = book.shares_to_divide(amount) / book.totals.total_power;
    assert(a.power * (book.totals.shares_per_point + q) == a.power * book.totals.shares_per_point + a.power
        * q) by (nonlinear_arith);
    if a.power == 0 {
        assert(a.power * q == 0) by (nonlinear_arith)
            requires
                a.power == 0,
        ;
    }
}

/// Leftover is carried, never dropped: two releases in a row, with no change
/// of power between them, leave the book as one release of the two amounts
/// together does.
pub proof fn law_releases_add_up(book: BookModel, first: int, second: int)
    requires
        book.inv(),
        book.totals.total_power > 0,
        first > 0,
        second > 0,
    ensures
        book.distribute(first).distribute(second) == book.distribute(first + second),
{
    let t = book.totals.total_power;
    let n1 = book.shares_to_divide(first);
    let once = book.distribute(first);
    let n2 = once.shares_to_divide(second);
    let n = book.shares_to_divide(first + second);
    lemma_fundamental_div_mod(n1, t);
    lemma_fundamental_div_mod(n2, t);
    lemma_mod_bound(n2, t);
    let q1 = n1 / t;
    let q2 = n2 / t;
    assert(n == (q1 + q2) * t + n2 % t) by (nonlinear_arith)
        requires
            n1 == t * q1 + n1 % t,
            n2 == t * q2 + n2 % t,
            n2 == second * SHARE + n1 % t,
            n1 == first * SHARE + book.totals.shares_leftover,
            n == (first + second) * SHARE + book.totals.shares_leftover,
    ;
    lemma_fundamental_div_mod_converse(n, t, q1 + q2, n2 % t);
}

} // verus!
