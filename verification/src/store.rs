use crate::account::{Account, UnstableAccount, UnstableView};
use crate::error::OreoError;
use crate::ledger::Ledger;
use crate::model::{LedgerView, RowView};
use crate::rank::{account_views, is_selection, Filter};
use vstd::prelude::*;

verus! {

/// Whether an operation found the store in reach: the store answered, with
/// the result or with the reason why there is none.
pub open spec fn in_reach<V>(r: Result<V, OreoError>) -> bool {
    !(r matches Err(OreoError::Unavailable))
}

/// The contract of a ledger store, whatever keeps its contents. An operation
/// either takes effect as stated, or fails for the stated reason and changes
/// nothing; a store that is out of reach for the moment may fail any
/// operation as unavailable, also without changing anything.
pub trait DBHandler {
    /// What the store holds.
    spec fn contents(&self) -> LedgerView;

    /// Whether the store is in order.
    spec fn in_order(&self) -> bool;

    /// Save account in db and return account name
    fn save_account(&mut self, account: Account, worker_id: u32) -> (r: Result<String, OreoError>)
        requires
            old(self).in_order(),
        ensures
            final(self).in_order(),
            match r {
                Ok(name) => !old(self).contents().has(account.address@) && final(self).contents()
                    == old(self).contents().saved(account@, worker_id) && name@ == account.name@,
                Err(e) => final(self).contents() == old(self).contents() && (e
                    == OreoError::Unavailable || (e == OreoError::Conflict && old(self).contents().has(account.address@))),
            },
    ;

    /// Get account from db
    fn get_account(&self, address: String) -> (r: Result<Account, OreoError>)
        requires
            self.in_order(),
        ensures
            match r {
                Ok(account) => self.contents().has(address@) && account@
                    == self.contents().accounts[address@],
                Err(e) => e == OreoError::Unavailable || (e == OreoError::NotFound
                    && !self.contents().has(address@)),
            },
    ;

    /// Remove account from db, with its observations
    fn remove_account(&mut self, address: String) -> (r: Result<String, OreoError>)
        requires
            old(self).in_order(),
        ensures
            final(self).in_order(),
            match r {
                Ok(a) => old(self).contents().has(address@) && a@ == address@ && final(self).contents() == old(self).contents().removed(address@),
                Err(e) => final(self).contents() == old(self).contents() && (e
                    == OreoError::Unavailable || (e == OreoError::NotFound && !old(self).contents().has(address@))),
            },
    ;

    /// Update account head in db, and discard the observations it passes
    fn update_account_head(&mut self, address: String, new_head: i64, new_hash: String) -> (r:
        Result<String, OreoError>)
        requires
            old(self).in_order(),
        ensures
            final(self).in_order(),
            match r {
                Ok(a) => old(self).contents().has(address@) && a@ == address@ && final(self).contents() == old(self).contents().advanced(address@, new_head, new_hash@),
                Err(e) => final(self).contents() == old(self).contents() && (e
                    == OreoError::Unavailable || (e == OreoError::NotFound && !old(self).contents().has(address@))),
            },
    ;

    /// Get accounts with oldest head
    fn get_oldest_accounts(&self) -> (r: Result<Vec<Account>, OreoError>)
        requires
            self.in_order(),
        ensures
            match r {
                Ok(list) => is_selection(self.contents(), Filter::All, None, account_views(list@)),
                Err(e) => e == OreoError::Unavailable,
            },
    ;

    /// Get accounts with head filter
    fn get_accounts_with_head(&self, start_head: i64) -> (r: Result<Vec<Account>, OreoError>)
        requires
            self.in_order(),
        ensures
            match r {
                Ok(list) => is_selection(
                    self.contents(),
                    Filter::HeadAtLeast(start_head),
                    None,
                    account_views(list@),
                ),
                Err(e) => e == OreoError::Unavailable,
            },
    ;

    /// Get account from primary table (unstable)
    fn get_primary_account(&self, address: String, sequence: i64) -> (r: Result<
        UnstableAccount,
        OreoError,
    >)
        requires
            self.in_order(),
        ensures
            match r {
                Ok(row) => self.contents().has_row(address@, sequence) && row@ == (UnstableView {
                    address: address@,
                    sequence: sequence,
                    hash: self.contents().unstable[(address@, sequence)].hash,
                }),
                Err(e) => e == OreoError::Unavailable || (e == OreoError::NotFound
                    && !self.contents().has_row(address@, sequence)),
            },
    ;

    /// Delete account info in primary table (unstable)
    fn del_primary_account(&mut self, address: String, sequence: i64) -> (r: Result<
        String,
        OreoError,
    >)
        requires
            old(self).in_order(),
        ensures
            final(self).in_order(),
            match r {
                Ok(a) => old(self).contents().has_row(address@, sequence) && a@ == address@
                    && final(self).contents() == old(self).contents().forgotten(
                    address@,
                    sequence,
                ),
                Err(e) => final(self).contents() == old(self).contents() && (e
                    == OreoError::Unavailable || (e == OreoError::NotFound && !old(self).contents().has_row(address@, sequence))),
            },
    ;

    /// Add account info to primary table (unstable)
    fn add_primary_account(&mut self, account: UnstableAccount) -> (r: Result<String, OreoError>)
        requires
            old(self).in_order(),
        ensures
            final(self).in_order(),
            match r {
                Ok(a) => old(self).contents().has(account.address@) && account.sequence > old(self).contents().accounts[account.address@].head && a@ == account.address@ && final(self).contents() == old(self).contents().observed(
                    account.address@,
                    account.sequence,
                    RowView { hash: account.hash@, parent: None },
                ),
                Err(e) => final(self).contents() == old(self).contents() && (e
                    == OreoError::Unavailable || if old(self).contents().has(account.address@) {
                    e == OreoError::Invalid && account.sequence <= old(self).contents().accounts[account.address@].head
                } else {
                    e == OreoError::NotFound
                }),
            },
    ;

    /// Update account created info
    fn update_account_createdhead(&mut self, address: String, new_head: i64, new_hash: String) -> (r:
        Result<String, OreoError>)
        requires
            old(self).in_order(),
        ensures
            final(self).in_order(),
            match r {
                Ok(a) => old(self).contents().has(address@) && a@ == address@ && final(self).contents() == old(self).contents().created(address@, new_head, new_hash@),
                Err(e) => final(self).contents() == old(self).contents() && (e
                    == OreoError::Unavailable || (e == OreoError::NotFound && !old(self).contents().has(address@))),
            },
    ;

    /// Update account need_scan status
    fn update_scan_status(&mut self, address: String, new_status: bool) -> (r: Result<
        String,
        OreoError,
    >)
        requires
            old(self).in_order(),
        ensures
            final(self).in_order(),
            match r {
                Ok(a) => old(self).contents().has(address@) && a@ == address@ && final(self).contents() == old(self).contents().flagged(address@, new_status),
                Err(e) => final(self).contents() == old(self).contents() && (e
                    == OreoError::Unavailable || (e == OreoError::NotFound && !old(self).contents().has(address@))),
            },
    ;
}

/// The ledger in memory as a store. It is always in reach, so each operation
/// takes effect or fails for the reason that the contract of the store gives.
impl DBHandler for Ledger {
    open spec fn contents(&self) -> LedgerView {
        self@
    }

    open spec fn in_order(&self) -> bool {
        self.inv()
    }

    fn save_account(&mut self, account: Account, worker_id: u32) -> (r: Result<String, OreoError>)
        ensures
            in_reach(r),
    {
        self.save(account, worker_id)
    }

    fn get_account(&self, address: String) -> (r: Result<Account, OreoError>)
        ensures
            in_reach(r),
    {
        self.get(address.as_str())
    }

    fn remove_account(&mut self, address: String) -> (r: Result<String, OreoError>)
        ensures
            in_reach(r),
    {
        self.remove(address.as_str())
    }

    fn update_account_head(&mut self, address: String, new_head: i64, new_hash: String) -> (r:
        Result<String, OreoError>)
        ensures
            in_reach(r),
    {
        self.advance_head(address.as_str(), new_head, new_hash)
    }

    fn get_oldest_accounts(&self) -> (r: Result<Vec<Account>, OreoError>)
        ensures
            in_reach(r),
    {
        Ok(self.select(Filter::All, None))
    }

    fn get_accounts_with_head(&self, start_head: i64) -> (r: Result<Vec<Account>, OreoError>)
        ensures
            in_reach(r),
    {
        Ok(self.with_head_at_least(start_head))
    }

    fn get_primary_account(&self, address: String, sequence: i64) -> (r: Result<
        UnstableAccount,
        OreoError,
    >)
        ensures
            in_reach(r),
    {
        self.get_unstable(address.as_str(), sequence)
    }

    fn del_primary_account(&mut self, address: String, sequence: i64) -> (r: Result<
        String,
        OreoError,
    >)
        ensures
            in_reach(r),
    {
        self.delete_unstable(address.as_str(), sequence)
    }

    fn add_primary_account(&mut self, account: UnstableAccount) -> (r: Result<String, OreoError>)
        ensures
            in_reach(r),
    {
        self.put_unstable(account)
    }

    fn update_account_createdhead(&mut self, address: String, new_head: i64, new_hash: String) -> (r:
        Result<String, OreoError>)
        ensures
            in_reach(r),
    {
        self.set_created(address.as_str(), new_head, new_hash)
    }

    fn update_scan_status(&mut self, address: String, new_status: bool) -> (r: Result<
        String,
        OreoError,
    >)
        ensures
            in_reach(r),
    {
        self.set_need_scan(address.as_str(), new_status)
    }
}

} // verus!
