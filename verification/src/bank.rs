//! Who holds how much of which asset: the custody that the staking ledger
//! relies on, kept as a plain list of holdings.

use vstd::prelude::*;
use crate::asset::{AssetInfoValidated, AssetModel};
use crate::error::ContractError;
use crate::lookup::{find, first, lemma_absent, lemma_first_is_unique, occurs};
use crate::text::same_text;

verus! {

/// An amount of a native coin.
#[derive(Debug, PartialEq, Eq)]
pub struct Coin {
    pub denom: String,
    pub amount: u128,
}

/// An amount of a token, held by an address.
#[derive(Debug, PartialEq, Eq)]
pub struct Cw20Coin {
    pub address: String,
    pub amount: u128,
}

/// What one address holds of one asset.
#[derive(Debug)]
pub struct Holding {
    pub asset: AssetInfoValidated,
    pub holder: String,
    pub amount: u128,
}

/// All holdings, at most one per asset and holder that counts: the first.
#[derive(Debug)]
pub struct Bank {
    pub holdings: Vec<Holding>,
}

/// An asset and a holder.
pub type Key = (AssetModel, Seq<char>);

/// The holdings as a mathematical object: keys and amounts, in the order in
/// which the keys first received something.
pub ghost struct BankModel {
    pub keys: Seq<Key>,
    pub amounts: Seq<u128>,
}

impl View for Bank {
    type V = BankModel;

    open spec fn view(&self) -> BankModel {
        BankModel {
            keys: Seq::new(
                self.holdings@.len(),
                |i: int| (self.holdings@[i].asset@, self.holdings@[i].holder@),
            ),
            amounts: Seq::new(self.holdings@.len(), |i: int| self.holdings@[i].amount),
        }
    }
}

impl BankModel {
    /// What `holder` holds of `asset`: nothing where there is no holding.
    pub open spec fn balance(self, asset: AssetModel, holder: Seq<char>) -> u128 {
        match find(self.keys, (asset, holder)) {
            Some(i) => self.amounts[i],
            None => 0,
        }
    }

    /// The holdings with the balance of `holder` in `asset` set to
    /// `amount`.
    pub open spec fn set(self, asset: AssetModel, holder: Seq<char>, amount: u128) -> BankModel {
        match find(self.keys, (asset, holder)) {
            Some(i) => BankModel { amounts: self.amounts.update(i, amount), ..self },
            None => BankModel {
                keys: self.keys.push((asset, holder)),
                amounts: self.amounts.push(amount),
            },
        }
    }

    /// Why `amount` of `asset` cannot move from `from` to `to`, if it
    /// cannot: the sender holds less, or the receiver's balance would
    /// overflow.
    pub open spec fn transfer_error(
        self,
        asset: AssetModel,
        from: Seq<char>,
        to: Seq<char>,
        amount: u128,
    ) -> Option<ContractError> {
        if self.balance(asset, from) < amount {
            Some(ContractError::InsufficientFunds {  })
        } else if from != to && self.balance(asset, to) + amount > u128::MAX {
            Some(ContractError::Overflow {  })
        } else {
            None
        }
    }

    /// The holdings after `amount` of `asset` moved from `from` to `to`.
    pub open spec fn transfer(self, asset: AssetModel, from: Seq<char>, to: Seq<char>, amount: u128)
        -> BankModel {
        if from == to {
            self
        } else {
            self.set(asset, from, (self.balance(asset, from) - amount) as u128).set(
                asset,
                to,
                (self.balance(asset, to) + amount) as u128,
            )
        }
    }

    /// No holdings.
    pub open spec fn empty() -> BankModel {
        BankModel { keys: Seq::empty(), amounts: Seq::empty() }
    }

    /// The holdings have a key and an amount for each entry.
    pub open spec fn wf(self) -> bool {
        self.keys.len() == self.amounts.len()
    }
}

/// Setting a balance sets it, and leaves every other balance as it was.
pub proof fn lemma_set_balance(
    bank: BankModel,
    asset: AssetModel,
    holder: Seq<char>,
    amount: u128,
    other_asset: AssetModel,
    other: Seq<char>,
)
    requires
        bank.wf(),
    ensures
        bank.set(asset, holder, amount).wf(),
        bank.set(asset, holder, amount).balance(asset, holder) == amount,
        (other_asset, other) != (asset, holder) ==> bank.set(asset, holder, amount).balance(
            other_asset,
            other,
        ) == bank.balance(other_asset, other),
{
    let key = (asset, holder);
    let after = bank.set(asset, holder, amount);
    if occurs(bank.keys, key) {
        crate::lookup::lemma_found(bank.keys, key);
        let k2 = (other_asset, other);
        if k2 != key && occurs(bank.keys, k2) {
            crate::lookup::lemma_found(bank.keys, k2);
        }
    } else {
        crate::lookup::lemma_absent_then_last(bank.keys, key);
        let k2 = (other_asset, other);
        if k2 != key {
            if occurs(bank.keys, k2) {
                crate::lookup::lemma_found(bank.keys, k2);
                let i = first(bank.keys, k2);
                assert forall|j: int| 0 <= j < i implies after.keys[j] != k2 by {
                    assert(after.keys[j] == bank.keys[j]);
                }
                assert(after.keys[i] == k2);
                lemma_first_is_unique(after.keys, i, k2);
            } else {
                assert forall|j: int| 0 <= j < after.keys.len() implies after.keys[j] != k2 by {
                    if j < bank.keys.len() {
                        assert(after.keys[j] == bank.keys[j]);
                    }
                }
                lemma_absent(after.keys, k2);
            }
        }
    }
}

impl Bank {
    /// A bank without holdings.
    pub fn new() -> (r: Bank)
        ensures
            r@ == BankModel::empty(),
            r@.wf(),
            forall|asset: AssetModel, holder: Seq<char>| r@.balance(asset, holder) == 0,
    {
        let r = Bank { holdings: Vec::new() };
        proof {
            assert(r@.keys =~= Seq::empty());
            assert(r@.amounts =~= Seq::empty());
            assert forall|asset: AssetModel, holder: Seq<char>| r@.balance(asset, holder) == 0 by {
                lemma_absent(r@.keys, (asset, holder));
            }
        }
        r
    }

    /// The index of the holding of `holder` in `asset`.
    fn find_holding(&self, asset: &AssetInfoValidated, holder: &String) -> (r: Option<usize>)
        ensures
            match r {
                Some(i) => find(self@.keys, (asset@, holder@)) == Some(i as int) && i
                    < self.holdings@.len(),
                None => find(self@.keys, (asset@, holder@)) == None::<int>,
            },
    {
        let n: usize = self.holdings.len();
        let mut i: usize = 0;
        while i < n
            invariant
                n == self.holdings@.len(),
                0 <= i <= n,
                forall|j: int| 0 <= j < i ==> self@.keys[j] != (asset@, holder@),
            decreases n - i,
        {
            if self.holdings[i].asset.same(asset) && same_text(&self.holdings[i].holder, holder) {
                proof {
                    lemma_first_is_unique(self@.keys, i as int, (asset@, holder@));
                }
                return Some(i);
            }
            i = i + 1;
        }
        proof {
            lemma_absent(self@.keys, (asset@, holder@));
        }
        None
    }

    /// What `holder` holds of `asset`.
    pub fn balance(&self, asset: &AssetInfoValidated, holder: &String) -> (r: u128)
        ensures
            r == self@.balance(asset@, holder@),
    {
        match self.find_holding(asset, holder) {
            Some(i) => self.holdings[i].amount,
            None => 0,
        }
    }

    /// Sets what `holder` holds of `asset`.
    pub fn set(&mut self, asset: &AssetInfoValidated, holder: &String, amount: u128)
        ensures
            final(self)@ == old(self)@.set(asset@, holder@, amount),
    {
        match self.find_holding(asset, holder) {
            Some(i) => {
                self.holdings[i].amount = amount;
                assert(self@.keys =~= old(self)@.keys);
                assert(self@.amounts =~= old(self)@.amounts.update(i as int, amount));
            },
            None => {
                self.holdings.push(
                    Holding { asset: asset.clone(), holder: holder.clone(), amount },
                );
                assert(self@.keys =~= old(self)@.keys.push((asset@, holder@)));
                assert(self@.amounts =~= old(self)@.amounts.push(amount));
            },
        }
    }

    /// Moves `amount` of `asset` from `from` to `to`.
    ///
    /// Fails, and changes nothing, exactly as `transfer_error` says: the
    /// sender holds less than the amount, or the receiver's balance would
    /// overflow.
    pub fn transfer(
        &mut self,
        asset: &AssetInfoValidated,
        from: &String,
        to: &String,
        amount: u128,
    ) -> (r: Result<(), ContractError>)
        ensures
            r == crate::ledger_model::outcome(
                old(self)@.transfer_error(asset@, from@, to@, amount),
            ),
            r is Ok ==> final(self)@ == old(self)@.transfer(asset@, from@, to@, amount),
            r is Err ==> *final(self) == *old(self),
    {
        let have: u128 = self.balance(asset, from);
        if have < amount {
            return Err(ContractError::InsufficientFunds {  });
        }
        if same_text(from, to) {
            return Ok(());
        }
        let there: u128 = self.balance(asset, to);
        let more: u128 = match there.checked_add(amount) {
            Some(v) => v,
            None => {
                return Err(ContractError::Overflow {  });
            },
        };
        self.set(asset, from, have - amount);
        proof {
            lemma_set_balance_any(old(self)@, asset@, from@, (have - amount) as u128, asset@, to@);
        }
        self.set(asset, to, more);
        Ok(())
    }

    /// Gives `holder` `amount` more of `asset`, out of nothing.
    ///
    /// Fails with an overflow, and changes nothing, exactly when the
    /// holder's balance would overflow.
    pub fn mint(&mut self, asset: &AssetInfoValidated, holder: &String, amount: u128) -> (r: Result<
        (),
        ContractError,
    >)
        ensures
            r is Ok <==> old(self)@.balance(asset@, holder@) + amount <= u128::MAX,
            r is Ok ==> final(self)@ == old(self)@.set(
                asset@,
                holder@,
                (old(self)@.balance(asset@, holder@) + amount) as u128,
            ),
            r is Err ==> r == Err::<(), ContractError>(ContractError::Overflow {  })
                && *final(self) == *old(self),
    {
        let have: u128 = self.balance(asset, holder);
        match have.checked_add(amount) {
            Some(v) => {
                self.set(asset, holder, v);
                Ok(())
            },
            None => Err(ContractError::Overflow {  }),
        }
    }

    /// A copy of the bank.
    pub fn copy(&self) -> (r: Bank)
        ensures
            r@ == self@,
    {
        let n: usize = self.holdings.len();
        let mut holdings: Vec<Holding> = Vec::new();
        let mut i: usize = 0;
        while i < n
            invariant
                n == self.holdings@.len(),
                0 <= i <= n,
                holdings@.len() == i,
                forall|j: int|
                    0 <= j < i ==> (#[trigger] holdings@[j]).asset@ == self.holdings@[j].asset@
                        && holdings@[j].holder@ == self.holdings@[j].holder@ && holdings@[j].amount
                        == self.holdings@[j].amount,
            decreases n - i,
        {
            let h: &Holding = &self.holdings[i];
            holdings.push(Holding { asset: h.asset.clone(), holder: h.holder.clone(), amount: h.amount });
            i = i + 1;
        }
        let r = Bank { holdings };
        assert(r@.keys =~= self@.keys);
        assert(r@.amounts =~= self@.amounts);
        r
    }
}

/// Setting a balance leaves the balance of another key as it was, whether
/// or not the holdings are well formed.
pub proof fn lemma_set_balance_any(
    bank: BankModel,
    asset: AssetModel,
    holder: Seq<char>,
    amount: u128,
    other_asset: AssetModel,
    other: Seq<char>,
)
    requires
        (other_asset, other) != (asset, holder),
        bank.wf(),
    ensures
        bank.set(asset, holder, amount).balance(other_asset, other) == bank.balance(
            other_asset,
            other,
        ),
{
    lemma_set_balance(bank, asset, holder, amount, other_asset, other);
}

} // verus!
