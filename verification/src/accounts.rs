//! Accounts: groupings of assets, and their arena.
//!
//! An account lists indices of assets; it does not own them. An asset may be
//! listed by no account, by one or by many, and an account may list an index
//! at which the asset pool holds nothing: such an entry is worth nothing.

use crate::amount::Amount;
use crate::assets::{group_total, AssetPool};
use vstd::prelude::*;

verus! {

/// The total value that one account had at some moment, with the account's
/// index. `None` where the total was outside the decimal range.
#[derive(Clone, Copy, Debug, PartialEq, Eq)]
pub struct AccountCapture {
    pub value: Option<Amount>,
    pub idx: usize,
}

/// An ordered list of asset indices. Its view is that list.
pub struct Account {
    assets: Vec<usize>,
}

impl View for Account {
    type V = Seq<usize>;

    closed spec fn view(&self) -> Seq<usize> {
        self.assets@
    }
}

impl Account {
    /// The account without assets.
    pub fn new() -> (r: Account)
        ensures
            r@ == Seq::<usize>::empty(),
    {
        Account { assets: Vec::new() }
    }

    /// The number of entries.
    pub fn len(&self) -> (n: usize)
        ensures
            n == self@.len(),
    {
        self.assets.len()
    }

    /// Appends `asset_idx` and returns the slot that it takes.
    pub fn add(&mut self, asset_idx: usize) -> (slot: usize)
        ensures
            final(self)@ == old(self)@.push(asset_idx),
            slot == old(self)@.len(),
    {
        self.assets.push(asset_idx);
        self.assets.len() - 1
    }

    /// The sum of the current values of the listed assets: see
    /// [`group_total`].
    pub fn total_value(&self, asset_pool: &AssetPool) -> (r: Option<Amount>)
        ensures
            r == group_total(asset_pool@, self@),
    {
        asset_pool.total_of(&self.assets)
    }
}

/// The lists of the accounts in `accounts`, position by position.
pub open spec fn lists_of(accounts: Seq<Account>) -> Seq<Seq<usize>> {
    Seq::new(accounts.len(), |i: int| accounts[i]@)
}

/// The captures of the accounts with the lists `accounts` over the assets
/// `values`, one for each account, in rising order of index.
pub open spec fn account_captures_of(accounts: Seq<Seq<usize>>, values: Seq<Amount>) -> Seq<
    AccountCapture,
> {
    Seq::new(
        accounts.len(),
        |i: int| AccountCapture { value: group_total(values, accounts[i]), idx: i as usize },
    )
}

/// The arena of accounts. Its view is the sequence of their lists by index.
pub struct AccountPool {
    accounts: Vec<Account>,
}

impl View for AccountPool {
    type V = Seq<Seq<usize>>;

    closed spec fn view(&self) -> Seq<Seq<usize>> {
        lists_of(self.accounts@)
    }
}

impl AccountPool {
    /// The empty pool.
    pub fn new() -> (r: AccountPool)
        ensures
            r@ == Seq::<Seq<usize>>::empty(),
    {
        AccountPool { accounts: Vec::new() }
    }

    /// The number of accounts.
    pub fn len(&self) -> (n: usize)
        ensures
            n == self@.len(),
    {
        self.accounts.len()
    }

    /// Appends an account without assets and returns its index.
    pub fn load_account(&mut self) -> (idx: usize)
        ensures
            final(self)@ == old(self)@.push(Seq::<usize>::empty()),
            idx == old(self)@.len(),
    {
        self.accounts.push(Account::new());
        self.accounts.len() - 1
    }

    /// Appends `asset_idx` to the account at `account_idx` and returns the
    /// slot that it takes there. `None`, and no change, where there is no such
    /// account. Whether the asset pool holds an asset at `asset_idx` is not
    /// asked.
    pub fn load_into_account(&mut self, asset_idx: usize, account_idx: usize) -> (r: Option<usize>)
        ensures
            r == if account_idx < old(self)@.len() {
                Some(old(self)@[account_idx as int].len() as usize)
            } else {
                None
            },
            final(self)@ == if account_idx < old(self)@.len() {
                old(self)@.update(
                    account_idx as int,
                    old(self)@[account_idx as int].push(asset_idx),
                )
            } else {
                old(self)@
            },
    {
        if account_idx < self.accounts.len() {
            let slot = self.accounts[account_idx].add(asset_idx);
            Some(slot)
        } else {
            None
        }
    }

    /// The total value of the account at `account_idx` over the assets of
    /// `asset_pool`: see [`group_total`]. `None` where there is no such
    /// account, and where the total leaves the decimal range.
    pub fn get(&self, account_idx: usize, asset_pool: &AssetPool) -> (r: Option<Amount>)
        ensures
            r == if account_idx < self@.len() {
                group_total(asset_pool@, self@[account_idx as int])
            } else {
                None
            },
    {
        if account_idx < self.accounts.len() {
            self.accounts[account_idx].total_value(asset_pool)
        } else {
            None
        }
    }

    /// Takes all accounts out of the pool, which is empty afterwards.
    pub fn unload(&mut self) -> (r: Vec<Account>)
        ensures
            final(self)@ == Seq::<Seq<usize>>::empty(),
            lists_of(r@) == old(self)@,
    {
        let mut out: Vec<Account> = Vec::new();
        std::mem::swap(&mut self.accounts, &mut out);
        out
    }

    /// One capture for each account, in rising order of index, of its total
    /// value over the assets of `asset_pool`.
    pub fn capture(&self, asset_pool: &AssetPool) -> (r: Vec<AccountCapture>)
        ensures
            r@ == account_captures_of(self@, asset_pool@),
    {
        let mut out: Vec<AccountCapture> = Vec::new();
        let n = self.accounts.len();
        let mut idx: usize = 0;
        while idx < n
            invariant
                n == self@.len(),
                n == self.accounts@.len(),
                idx <= n,
                out@.len() == idx,
                forall|i: int|
                    0 <= i < idx ==> #[trigger] out@[i] == account_captures_of(
                        self@,
                        asset_pool@,
                    )[i],
            decreases n - idx,
        {
            out.push(AccountCapture { value: self.accounts[idx].total_value(asset_pool), idx });
            idx += 1;
        }
        out
    }
}

} // verus!
