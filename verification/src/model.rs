use crate::account::AccountView;
use vstd::prelude::*;

verus! {

/// A provisional observation as the ledger keeps it: the hash seen at a
/// sequence and, where the observation came with one, the hash of the block
/// before it.
pub struct RowView {
    pub hash: Seq<char>,
    pub parent: Option<Seq<char>>,
}

/// The ledger as mathematical values: the accounts by address, the tag each
/// was saved under, and the provisional observations by address and sequence.
#[verifier::ext_equal]
pub struct LedgerView {
    pub accounts: Map<Seq<char>, AccountView>,
    pub origins: Map<Seq<char>, u32>,
    pub unstable: Map<(Seq<char>, i64), RowView>,
}

/// Whether a discard up to `bound` takes the observation at `sequence`: all
/// go where there is no bound, else those at or below it.
pub open spec fn discards(bound: Option<i64>, sequence: i64) -> bool {
    match bound {
        None => true,
        Some(h) => sequence <= h,
    }
}

/// The observations that stay when those of `address` are discarded up to
/// `bound`.
pub open spec fn rows_without(
    rows: Map<(Seq<char>, i64), RowView>,
    address: Seq<char>,
    bound: Option<i64>,
) -> Map<(Seq<char>, i64), RowView> {
    Map::new(
        |k: (Seq<char>, i64)| rows.contains_key(k) && !(k.0 == address && discards(bound, k.1)),
        |k: (Seq<char>, i64)| rows[k],
    )
}

impl LedgerView {
    /// The ledger that holds nothing.
    pub open spec fn empty() -> LedgerView {
        LedgerView { accounts: Map::empty(), origins: Map::empty(), unstable: Map::empty() }
    }

    /// What the store keeps true: an account is filed under its own address,
    /// each has its tag, and every observation belongs to an account and lies
    /// above that account's head.
    pub open spec fn wf(self) -> bool {
        &&& forall|a: Seq<char>| #[trigger]
            self.accounts.contains_key(a) ==> self.accounts[a].address == a
        &&& forall|a: Seq<char>|
            self.accounts.contains_key(a) <==> #[trigger] self.origins.contains_key(a)
        &&& forall|k: (Seq<char>, i64)| #[trigger]
            self.unstable.contains_key(k) ==> self.accounts.contains_key(k.0) && k.1
                > self.accounts[k.0].head
    }

    /// Whether an account is held at `address`.
    pub open spec fn has(self, address: Seq<char>) -> bool {
        self.accounts.contains_key(address)
    }

    /// Whether an observation is held for `address` at `sequence`.
    pub open spec fn has_row(self, address: Seq<char>, sequence: i64) -> bool {
        self.unstable.contains_key((address, sequence))
    }

    /// The ledger after a new account was saved under `tag`.
    pub open spec fn saved(self, account: AccountView, tag: u32) -> LedgerView {
        LedgerView {
            accounts: self.accounts.insert(account.address, account),
            origins: self.origins.insert(account.address, tag),
            unstable: self.unstable,
        }
    }

    /// The ledger after the account at `address` left, and all its
    /// observations with it.
    pub open spec fn removed(self, address: Seq<char>) -> LedgerView {
        LedgerView {
            accounts: self.accounts.remove(address),
            origins: self.origins.remove(address),
            unstable: rows_without(self.unstable, address, None),
        }
    }

    /// The ledger after the stable checkpoint of `address` was set to
    /// `(head, hash)`: the observations at or below `head` are gone.
    pub open spec fn advanced(self, address: Seq<char>, head: i64, hash: Seq<char>) -> LedgerView {
        LedgerView {
            accounts: self.accounts.insert(
                address,
                AccountView { head: head, hash: hash, ..self.accounts[address] },
            ),
            origins: self.origins,
            unstable: rows_without(self.unstable, address, Some(head)),
        }
    }

    /// The ledger after the origin bound of `address` was set to
    /// `(head, hash)`.
    pub open spec fn created(self, address: Seq<char>, head: i64, hash: Seq<char>) -> LedgerView {
        LedgerView {
            accounts: self.accounts.insert(
                address,
                AccountView {
                    create_head: Some(head),
                    create_hash: Some(hash),
                    ..self.accounts[address]
                },
            ),
            origins: self.origins,
            unstable: self.unstable,
        }
    }

    /// The ledger after the rescan flag of `address` was set to `flag`.
    pub open spec fn flagged(self, address: Seq<char>, flag: bool) -> LedgerView {
        LedgerView {
            accounts: self.accounts.insert(
                address,
                AccountView { need_scan: flag, ..self.accounts[address] },
            ),
            origins: self.origins,
            unstable: self.unstable,
        }
    }

    /// The ledger after an observation was put at `(address, sequence)`,
    /// in place of the one held there, if any.
    pub open spec fn observed(self, address: Seq<char>, sequence: i64, row: RowView) -> LedgerView {
        LedgerView {
            accounts: self.accounts,
            origins: self.origins,
            unstable: self.unstable.insert((address, sequence), row),
        }
    }

    /// The ledger after the observation at `(address, sequence)` was deleted.
    pub open spec fn forgotten(self, address: Seq<char>, sequence: i64) -> LedgerView {
        LedgerView {
            accounts: self.accounts,
            origins: self.origins,
            unstable: self.unstable.remove((address, sequence)),
        }
    }

    /// The ledger after the account at `address` was set back to
    /// `(head, hash)`: it is flagged for a rescan and none of its
    /// observations is left.
    pub open spec fn rewound(self, address: Seq<char>, head: i64, hash: Seq<char>) -> LedgerView {
        LedgerView {
            accounts: self.accounts.insert(
                address,
                AccountView { head: head, hash: hash, need_scan: true, ..self.accounts[address] },
            ),
            origins: self.origins,
            unstable: rows_without(self.unstable, address, None),
        }
    }
}

} // verus!
