//! The accounts of one distribution flow: a reward-per-point accumulator, and
//! for each staker a correction that lets the staker's share be read off in
//! constant time.
//!
//! Amounts of shares are fixed-point numbers with 32 fractional bits: one
//! unit of the reward asset is `SHARE` shares.

use vstd::prelude::*;
use vstd::arithmetic::div_mod::{
    lemma_fundamental_div_mod,
    lemma_div_pos_is_pos,
    lemma_mod_bound,
};
use vstd::arithmetic::mul::lemma_mul_is_commutative;
use crate::error::ContractError;

verus! {

/// The shares in one unit of the reward asset: two to the 32nd.
pub const SHARE: u128 = 4294967296u128;

/// What one staker holds in one flow.
#[derive(Clone, Copy, Debug, PartialEq, Eq, Structural)]
pub struct Account {
    /// The staker's reward weight in this flow.
    pub power: u128,
    /// Shares to add to `power` times the accumulator to get the shares that
    /// the staker has earned so far.
    pub correction: i128,
    /// The units already paid out to the staker.
    pub withdrawn: u128,
}

/// What a distribution flow holds for all its stakers together.
#[derive(Clone, Copy, Debug, PartialEq, Eq, Structural)]
pub struct Totals {
    /// The accumulator: shares ever released per point of power.
    pub shares_per_point: u128,
    /// Shares released but not yet divisible among the points.
    pub shares_leftover: u128,
    /// The sum of the accounts' powers.
    pub total_power: u128,
    /// The units ever folded into the accumulator.
    pub distributed_total: u128,
    /// The units folded into the accumulator and not yet paid out.
    pub withdrawable_total: u128,
}

/// The accounts of one distribution flow.
#[derive(Debug)]
pub struct FlowBook {
    /// What the flow holds for all stakers together.
    pub totals: Totals,
    /// One account per staker, in the order in which they joined.
    pub accounts: Vec<Account>,
}

/// The mathematical content of [`Totals`].
pub ghost struct TotalsModel {
    pub shares_per_point: int,
    pub shares_leftover: int,
    pub total_power: int,
    pub distributed_total: int,
    pub withdrawable_total: int,
}

/// The mathematical content of a [`FlowBook`].
pub ghost struct BookModel {
    pub totals: TotalsModel,
    pub accounts: Seq<AccountModel>,
}

/// The mathematical content of an [`Account`].
pub ghost struct AccountModel {
    pub power: int,
    pub correction: int,
    pub withdrawn: int,
}

impl View for Account {
    type V = AccountModel;

    open spec fn view(&self) -> AccountModel {
        AccountModel {
            power: self.power as int,
            correction: self.correction as int,
            withdrawn: self.withdrawn as int,
        }
    }
}

impl View for Totals {
    type V = TotalsModel;

    open spec fn view(&self) -> TotalsModel {
        TotalsModel {
            shares_per_point: self.shares_per_point as int,
            shares_leftover: self.shares_leftover as int,
            total_power: self.total_power as int,
            distributed_total: self.distributed_total as int,
            withdrawable_total: self.withdrawable_total as int,
        }
    }
}

/// The accounts of a book as their mathematical content.
pub open spec fn accounts_view(accounts: Seq<Account>) -> Seq<AccountModel> {
    Seq::new(accounts.len(), |i: int| accounts[i]@)
}

impl View for FlowBook {
    type V = BookModel;

    open spec fn view(&self) -> BookModel {
        BookModel { totals: self.totals@, accounts: accounts_view(self.accounts@) }
    }
}

impl AccountModel {
    /// The shares that the account has earned up to an accumulator of
    /// `shares_per_point`.
    pub open spec fn earned(self, shares_per_point: int) -> int {
        self.power * shares_per_point + self.correction
    }

    /// The units that the account can withdraw at that accumulator.
    pub open spec fn owed(self, shares_per_point: int) -> int {
        self.earned(shares_per_point) / (SHARE as int) - self.withdrawn
    }

    /// The account fits the machine's widths.
    pub open spec fn fits(self) -> bool {
        &&& 0 <= self.power <= u128::MAX
        &&& i128::MIN <= self.correction <= i128::MAX
        &&& 0 <= self.withdrawn <= u128::MAX
    }
}

/// The sum of the accounts' powers.
pub open spec fn sum_power(accounts: Seq<AccountModel>) -> int
    decreases accounts.len(),
{
    if accounts.len() == 0 {
        0
    } else {
        sum_power(accounts.drop_last()) + accounts.last().power
    }
}

/// The sum of the shares that the accounts have earned.
pub open spec fn sum_earned(accounts: Seq<AccountModel>, shares_per_point: int) -> int
    decreases accounts.len(),
{
    if accounts.len() == 0 {
        0
    } else {
        sum_earned(accounts.drop_last(), shares_per_point) + accounts.last().earned(
            shares_per_point,
        )
    }
}

/// The sum of the units paid out to the accounts.
pub open spec fn sum_withdrawn(accounts: Seq<AccountModel>) -> int
    decreases accounts.len(),
{
    if accounts.len() == 0 {
        0
    } else {
        sum_withdrawn(accounts.drop_last()) + accounts.last().withdrawn
    }
}


/// Replacing one account changes each sum by what the account changes.
pub proof fn lemma_sums_update(
    accounts: Seq<AccountModel>,
    i: int,
    account: AccountModel,
    shares_per_point: int,
)
    requires
        0 <= i < accounts.len(),
    ensures
        sum_power(accounts.update(i, account)) == sum_power(accounts) - accounts[i].power
            + account.power,
        sum_earned(accounts.update(i, account), shares_per_point) == sum_earned(
            accounts,
            shares_per_point,
        ) - accounts[i].earned(shares_per_point) + account.earned(shares_per_point),
        sum_withdrawn(accounts.update(i, account)) == sum_withdrawn(accounts)
            - accounts[i].withdrawn + account.withdrawn,
    decreases accounts.len(),
{
    let updated = accounts.update(i, account);
    if i == accounts.len() - 1 {
        assert(updated.drop_last() == accounts.drop_last());
    } else {
        assert(updated.drop_last() == accounts.drop_last().update(i, account));
        lemma_sums_update(accounts.drop_last(), i, account, shares_per_point);
    }
}

/// A new account adds its own part to each sum.
pub proof fn lemma_sums_push(
    accounts: Seq<AccountModel>,
    account: AccountModel,
    shares_per_point: int,
)
    ensures
        sum_power(accounts.push(account)) == sum_power(accounts) + account.power,
        sum_earned(accounts.push(account), shares_per_point) == sum_earned(
            accounts,
            shares_per_point,
        ) + account.earned(shares_per_point),
        sum_withdrawn(accounts.push(account)) == sum_withdrawn(accounts) + account.withdrawn,
{
    assert(accounts.push(account).drop_last() == accounts);
}

/// When the accumulator grows by `delta`, the accounts together earn `delta`
/// times their total power.
pub proof fn lemma_sum_earned_grows(accounts: Seq<AccountModel>, shares_per_point: int, delta: int)
    ensures
        sum_earned(accounts, shares_per_point + delta) == sum_earned(accounts, shares_per_point)
            + delta * sum_power(accounts),
    decreases accounts.len(),
{
    if accounts.len() > 0 {
        let front = accounts.drop_last();
        let a = accounts.last();
        lemma_sum_earned_grows(front, shares_per_point, delta);
        assert(a.power * (shares_per_point + delta) == a.power * shares_per_point + delta
            * a.power) by (nonlinear_arith);
        assert(delta * (sum_power(front) + a.power) == delta * sum_power(front) + delta
            * a.power) by (nonlinear_arith);
    }
}

/// Where no account has withdrawn more than it has earned, all together have
/// not.
pub proof fn lemma_sum_withdrawn_covered(accounts: Seq<AccountModel>, shares_per_point: int)
    requires
        forall|i: int|
            0 <= i < accounts.len() ==> (#[trigger] accounts[i]).withdrawn * SHARE
                <= accounts[i].earned(shares_per_point),
    ensures
        sum_withdrawn(accounts) * SHARE <= sum_earned(accounts, shares_per_point),
    decreases accounts.len(),
{
    if accounts.len() > 0 {
        let front = accounts.drop_last();
        let a = accounts.last();
        assert forall|i: int| 0 <= i < front.len() implies (#[trigger] front[i]).withdrawn * SHARE
            <= front[i].earned(shares_per_point) by {
            assert(front[i] == accounts[i]);
        }
        lemma_sum_withdrawn_covered(front, shares_per_point);
        assert((sum_withdrawn(front) + a.withdrawn) * SHARE == sum_withdrawn(front) * SHARE
            + a.withdrawn * SHARE) by (nonlinear_arith);
    }
}

impl TotalsModel {
    /// The shares to divide when `amount` units are released: the units as
    /// shares, and the leftover of the last release.
    pub open spec fn shares_to_divide(self, amount: int) -> int {
        amount * SHARE + self.shares_leftover
    }

    /// A release of `amount` units changes the totals: there is something
    /// to release and someone to release it to.
    pub open spec fn distributes(self, amount: int) -> bool {
        amount > 0 && self.total_power > 0
    }

    /// The totals after `amount` units were released to a positive total
    /// power: the accumulator grows by the shares per point, rounded down,
    /// and the remainder waits as leftover.
    pub open spec fn distribute(self, amount: int) -> TotalsModel {
        TotalsModel {
            shares_per_point: self.shares_per_point + self.shares_to_divide(amount)
                / self.total_power,
            shares_leftover: self.shares_to_divide(amount) % self.total_power,
            distributed_total: self.distributed_total + amount,
            withdrawable_total: self.withdrawable_total + amount,
            ..self
        }
    }

    /// The totals after a release of `amount` units, which changes nothing
    /// where there is nothing to release or nobody to release it to.
    pub open spec fn release(self, amount: int) -> TotalsModel {
        if self.distributes(amount) {
            self.distribute(amount)
        } else {
            self
        }
    }

    /// A release of `amount` units would pass the end of 128 bits: in the
    /// shares to divide, in the accumulator or in the total.
    pub open spec fn release_overflows(self, amount: int) -> bool {
        self.distributes(amount) && {
            ||| self.shares_to_divide(amount) > u128::MAX
            ||| self.distribute(amount).shares_per_point > u128::MAX
            ||| self.distribute(amount).distributed_total > u128::MAX
        }
    }

    /// The totals after `account` changed its power to `power`.
    pub open spec fn repower(self, account: AccountModel, power: int) -> TotalsModel {
        TotalsModel { total_power: self.total_power - account.power + power, ..self }
    }

    /// The totals after `account` withdrew all that it could.
    pub open spec fn pay(self, account: AccountModel) -> TotalsModel {
        TotalsModel {
            withdrawable_total: self.withdrawable_total - account.owed(self.shares_per_point),
            ..self
        }
    }
}

impl AccountModel {
    /// An account without power, which has earned and withdrawn nothing.
    pub open spec fn fresh() -> AccountModel {
        AccountModel { power: 0, correction: 0, withdrawn: 0 }
    }

    /// The account with its power changed to `power` at an accumulator of
    /// `shares_per_point`: the correction moves against the power, so that
    /// what the account has earned stays as it is.
    pub open spec fn repower(self, shares_per_point: int, power: int) -> AccountModel {
        AccountModel {
            power,
            correction: self.correction - shares_per_point * (power - self.power),
            ..self
        }
    }

    /// The change of power would move the correction out of its 128 signed
    /// bits.
    pub open spec fn repower_overflows(self, shares_per_point: int, power: int) -> bool {
        ||| self.repower(shares_per_point, power).correction > i128::MAX
        ||| self.repower(shares_per_point, power).correction < i128::MIN
    }

    /// The account after it withdrew all that it could at an accumulator of
    /// `shares_per_point`.
    pub open spec fn pay(self, shares_per_point: int) -> AccountModel {
        AccountModel { withdrawn: self.withdrawn + self.owed(shares_per_point), ..self }
    }

    /// What the account has earned cannot be computed in 128 signed bits.
    pub open spec fn owed_overflows(self, shares_per_point: int) -> bool {
        ||| self.power * shares_per_point > i128::MAX
        ||| self.earned(shares_per_point) > i128::MAX
    }
}

impl BookModel {
    /// A book without accounts, with nothing distributed.
    pub open spec fn empty() -> BookModel {
        BookModel {
            totals: TotalsModel {
                shares_per_point: 0,
                shares_leftover: 0,
                total_power: 0,
                distributed_total: 0,
                withdrawable_total: 0,
            },
            accounts: Seq::empty(),
        }
    }

    /// The book balances: the powers add up to the total power; every share
    /// ever released is earned by some account or waits in the leftover;
    /// every unit ever released is paid out or can still be withdrawn; and
    /// no account has been paid more than it has earned.
    pub open spec fn inv(self) -> bool {
        &&& 0 <= self.totals.shares_per_point
        &&& 0 <= self.totals.shares_leftover
        &&& 0 <= self.totals.withdrawable_total
        &&& sum_power(self.accounts) == self.totals.total_power
        &&& sum_earned(self.accounts, self.totals.shares_per_point) + self.totals.shares_leftover
            == self.totals.distributed_total * SHARE
        &&& sum_withdrawn(self.accounts) + self.totals.withdrawable_total
            == self.totals.distributed_total
        &&& forall|i: int|
            0 <= i < self.accounts.len() ==> {
                &&& 0 <= (#[trigger] self.accounts[i]).power
                &&& 0 <= self.accounts[i].withdrawn
                &&& self.accounts[i].withdrawn * SHARE <= self.accounts[i].earned(
                    self.totals.shares_per_point,
                )
            }
    }

    /// The shares to divide when `amount` units are released.
    pub open spec fn shares_to_divide(self, amount: int) -> int {
        self.totals.shares_to_divide(amount)
    }

    /// A release of `amount` units changes the book.
    pub open spec fn distributes(self, amount: int) -> bool {
        self.totals.distributes(amount)
    }

    /// The book after `amount` units were released to a positive total
    /// power.
    pub open spec fn distribute(self, amount: int) -> BookModel {
        BookModel { totals: self.totals.distribute(amount), ..self }
    }

    /// The book after a release of `amount` units, which changes nothing
    /// where there is nothing to release or nobody to release it to.
    pub open spec fn release(self, amount: int) -> BookModel {
        BookModel { totals: self.totals.release(amount), ..self }
    }

    /// The book after account `i` changed its power to `power`.
    pub open spec fn change_power(self, i: int, power: int) -> BookModel {
        BookModel {
            totals: self.totals.repower(self.accounts[i], power),
            accounts: self.accounts.update(
                i,
                self.accounts[i].repower(self.totals.shares_per_point, power),
            ),
        }
    }

    /// A change of account `i` to `power` would move the correction out of
    /// its 128 signed bits, or the total power out of its 128 bits.
    pub open spec fn change_power_overflows(self, i: int, power: int) -> bool {
        ||| self.accounts[i].repower_overflows(self.totals.shares_per_point, power)
        ||| self.totals.repower(self.accounts[i], power).total_power > u128::MAX
    }

    /// The units that account `i` can withdraw.
    pub open spec fn owed(self, i: int) -> int {
        self.accounts[i].owed(self.totals.shares_per_point)
    }

    /// What account `i` has earned cannot be computed in 128 signed bits.
    pub open spec fn owed_overflows(self, i: int) -> bool {
        self.accounts[i].owed_overflows(self.totals.shares_per_point)
    }

    /// The book after account `i` withdrew all that it could.
    pub open spec fn withdraw(self, i: int) -> BookModel {
        BookModel {
            totals: self.totals.pay(self.accounts[i]),
            accounts: self.accounts.update(
                i,
                self.accounts[i].pay(self.totals.shares_per_point),
            ),
        }
    }

    /// The book with one more account, without power.
    pub open spec fn open_account(self) -> BookModel {
        BookModel { accounts: self.accounts.push(AccountModel::fresh()), ..self }
    }
}

/// A release keeps the book balanced.
pub proof fn lemma_distribute_keeps_balance(book: BookModel, amount: int)
    requires
        book.inv(),
        book.totals.total_power > 0,
        amount >= 0,
    ensures
        book.distribute(amount).inv(),
        book.distribute(amount).totals.shares_per_point >= book.totals.shares_per_point,
        0 <= book.distribute(amount).totals.shares_leftover < book.totals.total_power,
{
    let after = book.distribute(amount);
    let n = book.shares_to_divide(amount);
    let t = book.totals.total_power;
    let q = n / t;
    assert(amount * SHARE >= 0) by (nonlinear_arith)
        requires
            amount >= 0,
    ;
    lemma_fundamental_div_mod(n, t);
    lemma_mod_bound(n, t);
    assert(q >= 0) by {
        if n > 0 {
            lemma_div_pos_is_pos(n, t);
        }
    }
    lemma_sum_earned_grows(book.accounts, book.totals.shares_per_point, q);
    lemma_mul_is_commutative(q, t);
    assert((book.totals.distributed_total + amount) * SHARE == book.totals.distributed_total * SHARE + amount
        * SHARE) by (nonlinear_arith);
    assert forall|i: int| 0 <= i < after.accounts.len() implies {
        &&& 0 <= (#[trigger] after.accounts[i]).power
        &&& 0 <= after.accounts[i].withdrawn
        &&& after.accounts[i].withdrawn * SHARE <= after.accounts[i].earned(
            after.totals.shares_per_point,
        )
    } by {
        let a = book.accounts[i];
        assert(a.power * (book.totals.shares_per_point + q) >= a.power * book.totals.shares_per_point)
            by (nonlinear_arith)
            requires
                a.power >= 0,
                q >= 0,
        ;
    }
}

/// A change of power keeps the book balanced, and leaves what every account
/// has earned as it was.
pub proof fn lemma_change_power_keeps_balance(book: BookModel, i: int, power: int)
    requires
        book.inv(),
        0 <= i < book.accounts.len(),
        power >= 0,
    ensures
        book.change_power(i, power).inv(),
        forall|j: int|
            0 <= j < book.accounts.len() ==> (#[trigger] book.change_power(
                i,
                power,
            ).accounts[j]).earned(book.totals.shares_per_point) == book.accounts[j].earned(
                book.totals.shares_per_point,
            ),
{
    let after = book.change_power(i, power);
    let spp = book.totals.shares_per_point;
    let a = book.accounts[i];
    let b = after.accounts[i];
    assert(b.earned(spp) == a.earned(spp)) by (nonlinear_arith)
        requires
            b.power == power,
            b.correction == a.correction - spp * (power - a.power),
    ;
    lemma_sums_update(book.accounts, i, b, spp);
    assert forall|j: int| 0 <= j < after.accounts.len() implies {
        &&& 0 <= (#[trigger] after.accounts[j]).power
        &&& 0 <= after.accounts[j].withdrawn
        &&& after.accounts[j].withdrawn * SHARE <= after.accounts[j].earned(spp)
    } by {
        if j != i {
            assert(after.accounts[j] == book.accounts[j]);
        }
    }
}

/// In a balanced book no account can withdraw more than the book holds for
/// withdrawal, and none can withdraw a negative amount.
pub proof fn lemma_owed_is_covered(book: BookModel, i: int)
    requires
        book.inv(),
        0 <= i < book.accounts.len(),
    ensures
        0 <= book.owed(i) <= book.totals.withdrawable_total,
{
    let spp = book.totals.shares_per_point;
    let a = book.accounts[i];
    let e = a.earned(spp);
    let s = SHARE as int;
    lemma_fundamental_div_mod(e, s);
    lemma_mod_bound(e, s);
    assert(a.withdrawn <= e / s) by (nonlinear_arith)
        requires
            a.withdrawn * s <= e,
            e == s * (e / s) + e % s,
            0 <= e % s < s,
            s > 0,
    ;
    let paid = a.pay(spp);
    let accounts = book.accounts.update(i, paid);
    assert((e / s) * s <= e) by (nonlinear_arith)
        requires
            e == s * (e / s) + e % s,
            0 <= e % s,
    ;
    assert forall|j: int| 0 <= j < accounts.len() implies (#[trigger] accounts[j]).withdrawn
        * SHARE <= accounts[j].earned(spp) by {
        if j != i {
            assert(accounts[j] == book.accounts[j]);
        }
    }
    lemma_sum_withdrawn_covered(accounts, spp);
    lemma_sums_update(book.accounts, i, paid, spp);
    assert(sum_withdrawn(accounts) <= book.totals.distributed_total) by (nonlinear_arith)
        requires
            sum_withdrawn(accounts) * s <= book.totals.distributed_total * s,
            s > 0,
    ;
}

/// A withdrawal keeps the book balanced, and leaves the account with nothing
/// more to withdraw.
pub proof fn lemma_withdraw_keeps_balance(book: BookModel, i: int)
    requires
        book.inv(),
        0 <= i < book.accounts.len(),
    ensures
        book.withdraw(i).inv(),
        book.withdraw(i).owed(i) == 0,
{
    lemma_owed_is_covered(book, i);
    let after = book.withdraw(i);
    let spp = book.totals.shares_per_point;
    let a = book.accounts[i];
    let b = after.accounts[i];
    let e = a.earned(spp);
    let s = SHARE as int;
    lemma_sums_update(book.accounts, i, b, spp);
    lemma_fundamental_div_mod(e, s);
    lemma_mod_bound(e, s);
    assert((e / s) * s <= e) by (nonlinear_arith)
        requires
            e == s * (e / s) + e % s,
            0 <= e % s,
    ;
    assert forall|j: int| 0 <= j < after.accounts.len() implies {
        &&& 0 <= (#[trigger] after.accounts[j]).power
        &&& 0 <= after.accounts[j].withdrawn
        &&& after.accounts[j].withdrawn * SHARE <= after.accounts[j].earned(spp)
    } by {
        if j != i {
            assert(after.accounts[j] == book.accounts[j]);
        }
    }
}

/// A new account keeps the book balanced.
pub proof fn lemma_open_account_keeps_balance(book: BookModel)
    requires
        book.inv(),
    ensures
        book.open_account().inv(),
{
    let fresh = AccountModel::fresh();
    lemma_sums_push(book.accounts, fresh, book.totals.shares_per_point);
    let after = book.open_account();
    assert forall|j: int| 0 <= j < after.accounts.len() implies {
        &&& 0 <= (#[trigger] after.accounts[j]).power
        &&& 0 <= after.accounts[j].withdrawn
        &&& after.accounts[j].withdrawn * SHARE <= after.accounts[j].earned(
            after.totals.shares_per_point,
        )
    } by {
        if j < book.accounts.len() {
            assert(after.accounts[j] == book.accounts[j]);
        }
    }
}


/// `correction - shares_per_point * (new_power - old_power)`, where it fits
/// into 128 signed bits.
pub fn moved_correction(correction: i128, shares_per_point: u128, old_power: u128, new_power: u128)
    -> (r: Option<i128>)
    ensures
        r == moved_correction_spec(
            correction as int,
            shares_per_point as int,
            old_power as int,
            new_power as int,
        ),
{
    if new_power >= old_power {
        let d: u128 = new_power - old_power;
        assert(shares_per_point * (new_power - old_power) >= 0) by (nonlinear_arith)
            requires
                shares_per_point >= 0,
                new_power - old_power >= 0,
        ;
        match shares_per_point.checked_mul(d) {
            Some(p) => correction.checked_sub_unsigned(p),
            None => None,
        }
    } else {
        let d: u128 = old_power - new_power;
        assert(shares_per_point * (old_power - new_power) == -(shares_per_point * (new_power
            - old_power)) && shares_per_point * (old_power - new_power) >= 0)
            by (nonlinear_arith)
            requires
                shares_per_point >= 0,
                old_power - new_power >= 0,
        ;
        match shares_per_point.checked_mul(d) {
            Some(p) => correction.checked_add_unsigned(p),
            None => None,
        }
    }
}

/// What [`moved_correction`] returns.
pub open spec fn moved_correction_spec(
    correction: int,
    shares_per_point: int,
    old_power: int,
    new_power: int,
) -> Option<i128> {
    let moved = correction - shares_per_point * (new_power - old_power);
    if i128::MIN <= moved <= i128::MAX {
        Some(moved as i128)
    } else {
        None
    }
}

impl Account {
    /// An account without power, which has earned and withdrawn nothing.
    pub fn fresh() -> (r: Account)
        ensures
            r@ == AccountModel::fresh(),
    {
        Account { power: 0, correction: 0, withdrawn: 0 }
    }

    /// What the account has withdrawn is covered by what it has earned at an
    /// accumulator of `shares_per_point`.
    pub open spec fn covered(self, shares_per_point: u128) -> bool {
        self@.withdrawn * SHARE <= self@.earned(shares_per_point as int)
    }

    /// The account with its power changed to `power` at an accumulator of
    /// `shares_per_point`; `None` exactly when the correction would leave
    /// its 128 signed bits.
    pub fn repowered(self, shares_per_point: u128, power: u128) -> (r: Option<Account>)
        ensures
            r is Some <==> !self@.repower_overflows(shares_per_point as int, power as int),
            r is Some ==> r.unwrap()@ == self@.repower(shares_per_point as int, power as int),
    {
        match moved_correction(self.correction, shares_per_point, self.power, power) {
            Some(correction) => Some(Account { power, correction, withdrawn: self.withdrawn }),
            None => None,
        }
    }

    /// The units that the account can withdraw at an accumulator of
    /// `shares_per_point`; `None` exactly when what it has earned cannot be
    /// computed in 128 signed bits.
    pub fn owed(self, shares_per_point: u128) -> (r: Option<u128>)
        requires
            self.covered(shares_per_point),
        ensures
            r is Some <==> !self@.owed_overflows(shares_per_point as int),
            r is Some ==> r.unwrap() == self@.owed(shares_per_point as int),
            0 <= self@.owed(shares_per_point as int),
    {
        proof {
            assert(self.power * shares_per_point >= 0) by (nonlinear_arith)
                requires
                    self.power >= 0,
                    shares_per_point >= 0,
            ;
            assert(self@.withdrawn * SHARE >= 0);
            let e = self@.earned(shares_per_point as int);
            let s = SHARE as int;
            lemma_fundamental_div_mod(e, s);
            lemma_mod_bound(e, s);
            assert(self@.withdrawn <= e / s) by (nonlinear_arith)
                requires
                    self@.withdrawn * s <= e,
                    e == s * (e / s) + e % s,
                    0 <= e % s < s,
                    s > 0,
            ;
        }
        let product: u128 = match self.power.checked_mul(shares_per_point) {
            Some(v) => v,
            None => {
                return None;
            },
        };
        if product > 170141183460469231731687303715884105727u128 {
            return None;
        }
        let earned: i128 = match self.correction.checked_add_unsigned(product) {
            Some(v) => v,
            None => {
                return None;
            },
        };
        let units: u128 = (earned as u128) / SHARE;
        Some(units - self.withdrawn)
    }

    /// The account after it withdrew `amount` units.
    pub fn paid(self, amount: u128) -> (r: Account)
        requires
            self.withdrawn + amount <= u128::MAX,
        ensures
            r == (Account { withdrawn: (self.withdrawn + amount) as u128, ..self }),
    {
        Account { power: self.power, correction: self.correction, withdrawn: self.withdrawn + amount }
    }
}

impl Totals {
    /// Totals with nothing released and no power.
    pub fn zero() -> (r: Totals)
        ensures
            r@ == BookModel::empty().totals,
    {
        Totals {
            shares_per_point: 0,
            shares_leftover: 0,
            total_power: 0,
            distributed_total: 0,
            withdrawable_total: 0,
        }
    }

    /// The totals after a release of `amount` units; `None` exactly when the
    /// release would overflow.
    pub fn released(self, amount: u128) -> (r: Option<Totals>)
        requires
            self.withdrawable_total <= self.distributed_total,
        ensures
            r is Some <==> !self@.release_overflows(amount as int),
            r is Some ==> r.unwrap()@ == self@.release(amount as int),
    {
        if amount == 0 || self.total_power == 0 {
            return Some(self);
        }
        let shares: u128 = match amount.checked_mul(SHARE) {
            Some(v) => v,
            None => {
                return None;
            },
        };
        let points: u128 = match shares.checked_add(self.shares_leftover) {
            Some(v) => v,
            None => {
                return None;
            },
        };
        let per_point: u128 = points / self.total_power;
        let leftover: u128 = points % self.total_power;
        let shares_per_point: u128 = match self.shares_per_point.checked_add(per_point) {
            Some(v) => v,
            None => {
                return None;
            },
        };
        let distributed_total: u128 = match self.distributed_total.checked_add(amount) {
            Some(v) => v,
            None => {
                return None;
            },
        };
        Some(
            Totals {
                shares_per_point,
                shares_leftover: leftover,
                total_power: self.total_power,
                distributed_total,
                withdrawable_total: self.withdrawable_total + amount,
            },
        )
    }

    /// The totals after `account` changed its power to `power`; `None`
    /// exactly when the total power would pass the end of 128 bits.
    pub fn repowered(self, account: Account, power: u128) -> (r: Option<Totals>)
        requires
            account.power <= self.total_power,
        ensures
            r is Some <==> self@.repower(account@, power as int).total_power <= u128::MAX,
            r is Some ==> r.unwrap()@ == self@.repower(account@, power as int),
    {
        let rest: u128 = self.total_power - account.power;
        match rest.checked_add(power) {
            Some(total_power) => Some(
                Totals {
                    shares_per_point: self.shares_per_point,
                    shares_leftover: self.shares_leftover,
                    total_power,
                    distributed_total: self.distributed_total,
                    withdrawable_total: self.withdrawable_total,
                },
            ),
            None => None,
        }
    }

    /// The totals after `amount` units were paid out.
    pub fn paid(self, amount: u128) -> (r: Totals)
        requires
            amount <= self.withdrawable_total,
        ensures
            r == (Totals {
                withdrawable_total: (self.withdrawable_total - amount) as u128,
                ..self
            }),
    {
        Totals {
            shares_per_point: self.shares_per_point,
            shares_leftover: self.shares_leftover,
            total_power: self.total_power,
            distributed_total: self.distributed_total,
            withdrawable_total: self.withdrawable_total - amount,
        }
    }
}

impl FlowBook {
    /// A book without accounts, with nothing distributed.
    pub fn new() -> (r: FlowBook)
        ensures
            r@ == BookModel::empty(),
            r@.inv(),
    {
        let r = FlowBook { totals: Totals::zero(), accounts: Vec::new() };
        assert(r@.accounts =~= Seq::empty());
        r
    }

    /// The number of accounts.
    pub fn len(&self) -> (n: usize)
        ensures
            n == self@.accounts.len(),
    {
        self.accounts.len()
    }

    /// Account `i`.
    pub fn account(&self, i: usize) -> (r: Account)
        requires
            i < self@.accounts.len(),
        ensures
            r@ == self@.accounts[i as int],
            r == self.accounts@[i as int],
    {
        self.accounts[i]
    }

    /// Opens an account without power and returns its index.
    pub fn open_account(&mut self) -> (i: usize)
        requires
            old(self)@.inv(),
        ensures
            final(self)@ == old(self)@.open_account(),
            final(self)@.inv(),
            i == old(self)@.accounts.len(),
    {
        let i: usize = self.accounts.len();
        self.accounts.push(Account::fresh());
        proof {
            assert(self@.accounts =~= old(self)@.open_account().accounts);
            lemma_open_account_keeps_balance(old(self)@);
        }
        i
    }

    /// Folds `amount` newly released units into the accumulator. Nothing
    /// changes where the amount is zero or no account has power: the units
    /// stay with the caller until a release finds someone to take them.
    ///
    /// Fails, and changes nothing, exactly when the release would overflow.
    pub fn distribute(&mut self, amount: u128) -> (r: Result<(), ContractError>)
        requires
            old(self)@.inv(),
        ensures
            r is Ok <==> !old(self)@.totals.release_overflows(amount as int),
            r is Ok ==> final(self)@ == old(self)@.release(amount as int),
            r is Err ==> r == Err::<(), ContractError>(ContractError::Overflow {  })
                && *final(self) == *old(self),
            final(self)@.inv(),
    {
        proof {
            lemma_release_keeps_balance(self@, amount as int);
        }
        match self.totals.released(amount) {
            Some(totals) => {
                self.totals = totals;
                Ok(())
            },
            None => Err(ContractError::Overflow {  }),
        }
    }

    /// Changes the power of account `i` to `power`. What the account has
    /// earned so far stays as it is; from now on it earns by the new power.
    ///
    /// Fails, and changes nothing, exactly when the change would overflow.
    pub fn change_power(&mut self, i: usize, power: u128) -> (r: Result<(), ContractError>)
        requires
            old(self)@.inv(),
            i < old(self)@.accounts.len(),
        ensures
            r is Ok <==> !old(self)@.change_power_overflows(i as int, power as int),
            r is Ok ==> final(self)@ == old(self)@.change_power(i as int, power as int),
            r is Err ==> r == Err::<(), ContractError>(ContractError::Overflow {  })
                && *final(self) == *old(self),
            final(self)@.inv(),
    {
        let account: Account = self.accounts[i];
        proof {
            lemma_power_within_total(self@.accounts, i as int);
            lemma_change_power_keeps_balance(self@, i as int, power as int);
        }
        let moved: Account = match account.repowered(self.totals.shares_per_point, power) {
            Some(v) => v,
            None => {
                return Err(ContractError::Overflow {  });
            },
        };
        let totals: Totals = match self.totals.repowered(account, power) {
            Some(v) => v,
            None => {
                return Err(ContractError::Overflow {  });
            },
        };
        self.totals = totals;
        self.accounts.set(i, moved);
        assert(self@.accounts =~= old(self)@.change_power(i as int, power as int).accounts);
        Ok(())
    }

    /// The units that account `i` can withdraw.
    ///
    /// Fails exactly when what the account has earned cannot be computed in
    /// 128 signed bits.
    pub fn withdrawable(&self, i: usize) -> (r: Result<u128, ContractError>)
        requires
            self@.inv(),
            i < self@.accounts.len(),
        ensures
            r is Ok <==> !self@.owed_overflows(i as int),
            r is Ok ==> r == Ok::<u128, ContractError>(self@.owed(i as int) as u128) && 0
                <= self@.owed(i as int) <= self.totals.withdrawable_total,
            r is Err ==> r == Err::<u128, ContractError>(ContractError::Overflow {  }),
    {
        let account: Account = self.accounts[i];
        proof {
            lemma_owed_is_covered(self@, i as int);
        }
        match account.owed(self.totals.shares_per_point) {
            Some(v) => Ok(v),
            None => Err(ContractError::Overflow {  }),
        }
    }

    /// Pays account `i` all that it can withdraw, and returns the amount.
    /// Right after, the account has nothing more to withdraw.
    ///
    /// Fails, and changes nothing, exactly when what the account has earned
    /// cannot be computed in 128 signed bits.
    pub fn withdraw(&mut self, i: usize) -> (r: Result<u128, ContractError>)
        requires
            old(self)@.inv(),
            i < old(self)@.accounts.len(),
        ensures
            r is Ok <==> !old(self)@.owed_overflows(i as int),
            r is Ok ==> r == Ok::<u128, ContractError>(old(self)@.owed(i as int) as u128)
                && final(self)@ == old(self)@.withdraw(i as int) && final(self)@.owed(i as int)
                == 0,
            r is Err ==> r == Err::<u128, ContractError>(ContractError::Overflow {  })
                && *final(self) == *old(self),
            final(self)@.inv(),
    {
        let amount: u128 = match self.withdrawable(i) {
            Ok(v) => v,
            Err(e) => {
                return Err(e);
            },
        };
        let account: Account = self.accounts[i];
        proof {
            lemma_withdraw_keeps_balance(self@, i as int);
            lemma_withdrawn_within_total(self@, i as int);
        }
        self.totals = self.totals.paid(amount);
        self.accounts.set(i, account.paid(amount));
        assert(self@.accounts =~= old(self)@.withdraw(i as int).accounts);
        Ok(amount)
    }

    /// Writes totals and an account that were computed from this book.
    pub fn commit(&mut self, totals: Totals, i: usize, account: Account)
        requires
            i < old(self)@.accounts.len(),
        ensures
            final(self)@ == (BookModel {
                totals: totals@,
                accounts: old(self)@.accounts.update(i as int, account@),
            }),
            final(self).totals == totals,
            final(self).accounts@ == old(self).accounts@.update(i as int, account),
    {
        self.totals = totals;
        self.accounts.set(i, account);
        assert(self@.accounts =~= old(self)@.accounts.update(i as int, account@));
    }
}

impl FlowBook {
    /// Writes totals and one more account that were computed from this
    /// book.
    pub fn enroll(&mut self, totals: Totals, account: Account)
        ensures
            final(self)@ == (BookModel {
                totals: totals@,
                accounts: old(self)@.accounts.push(account@),
            }),
            final(self).totals == totals,
            final(self).accounts@ == old(self).accounts@.push(account),
    {
        self.totals = totals;
        self.accounts.push(account);
        assert(self@.accounts =~= old(self)@.accounts.push(account@));
    }
}

impl FlowBook {
    /// Takes the last account away and writes totals: the way back from an
    /// account that was enrolled.
    pub fn dismiss(&mut self, totals: Totals)
        requires
            old(self)@.accounts.len() > 0,
        ensures
            final(self)@ == (BookModel {
                totals: totals@,
                accounts: old(self)@.accounts.drop_last(),
            }),
            final(self).totals == totals,
            final(self).accounts@ == old(self).accounts@.drop_last(),
    {
        self.totals = totals;
        self.accounts.pop();
        assert(self@.accounts =~= old(self)@.accounts.drop_last());
    }
}

/// A release, of something or of nothing, keeps the book balanced.
pub proof fn lemma_release_keeps_balance(book: BookModel, amount: int)
    requires
        book.inv(),
        amount >= 0,
    ensures
        book.release(amount).inv(),
        book.totals.withdrawable_total <= book.totals.distributed_total,
{
    if book.distributes(amount) {
        lemma_distribute_keeps_balance(book, amount);
    }
    lemma_sum_withdrawn_nonnegative(book.accounts);
}

/// No account has more power than all accounts together, where none has a
/// negative power.
pub proof fn lemma_power_within_total(accounts: Seq<AccountModel>, i: int)
    requires
        0 <= i < accounts.len(),
        forall|j: int| 0 <= j < accounts.len() ==> 0 <= (#[trigger] accounts[j]).power,
    ensures
        0 <= accounts[i].power <= sum_power(accounts),
        0 <= sum_power(accounts) - accounts[i].power,
    decreases accounts.len(),
{
    let front = accounts.drop_last();
    assert forall|j: int| 0 <= j < front.len() implies 0 <= (#[trigger] front[j]).power by {
        assert(front[j] == accounts[j]);
    }
    if i < accounts.len() - 1 {
        lemma_power_within_total(front, i);
    } else {
        lemma_sum_power_nonnegative(front);
    }
}

/// Powers that are not negative add up to a sum that is not negative.
pub proof fn lemma_sum_power_nonnegative(accounts: Seq<AccountModel>)
    requires
        forall|j: int| 0 <= j < accounts.len() ==> 0 <= (#[trigger] accounts[j]).power,
    ensures
        0 <= sum_power(accounts),
    decreases accounts.len(),
{
    if accounts.len() > 0 {
        let front = accounts.drop_last();
        assert forall|j: int| 0 <= j < front.len() implies 0 <= (#[trigger] front[j]).power by {
            assert(front[j] == accounts[j]);
        }
        lemma_sum_power_nonnegative(front);
    }
}

/// In a balanced book, what an account has withdrawn and can withdraw is
/// not more than was ever released.
pub proof fn lemma_withdrawn_within_total(book: BookModel, i: int)
    requires
        book.inv(),
        0 <= i < book.accounts.len(),
    ensures
        book.accounts[i].withdrawn + book.owed(i) <= book.totals.distributed_total,
{
    lemma_owed_is_covered(book, i);
    lemma_withdrawn_nonnegative(book.accounts, i);
}

/// Withdrawn amounts that are not negative add up to a sum that is not
/// negative.
pub proof fn lemma_sum_withdrawn_nonnegative(accounts: Seq<AccountModel>)
    requires
        forall|j: int| 0 <= j < accounts.len() ==> 0 <= (#[trigger] accounts[j]).withdrawn,
    ensures
        0 <= sum_withdrawn(accounts),
    decreases accounts.len(),
{
    if accounts.len() > 0 {
        let front = accounts.drop_last();
        assert forall|j: int| 0 <= j < front.len() implies 0 <= (#[trigger] front[j]).withdrawn by {
            assert(front[j] == accounts[j]);
        }
        lemma_sum_withdrawn_nonnegative(front);
    }
}

/// No account has withdrawn more than all accounts together, where none has
/// withdrawn a negative amount.
pub proof fn lemma_withdrawn_nonnegative(accounts: Seq<AccountModel>, i: int)
    requires
        0 <= i < accounts.len(),
        forall|j: int| 0 <= j < accounts.len() ==> 0 <= (#[trigger] accounts[j]).withdrawn,
    ensures
        accounts[i].withdrawn <= sum_withdrawn(accounts),
        0 <= sum_withdrawn(accounts),
    decreases accounts.len(),
{
    let front = accounts.drop_last();
    assert forall|j: int| 0 <= j < front.len() implies 0 <= (#[trigger] front[j]).withdrawn by {
        assert(front[j] == accounts[j]);
    }
    lemma_sum_withdrawn_nonnegative(front);
    if i < accounts.len() - 1 {
        lemma_withdrawn_nonnegative(front, i);
    }
}

} // verus!
