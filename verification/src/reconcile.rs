use crate::account::{AccountView, UnstableAccount};
use crate::error::OreoError;
use crate::ledger::Ledger;
use crate::model::{LedgerView, RowView};
use crate::text::same;
use vstd::prelude::*;

verus! {

/// What a `Report` holds, as mathematical values.
pub struct ReportView {
    pub address: Seq<char>,
    pub sequence: i64,
    pub hash: Seq<char>,
    pub parent_hash: Seq<char>,
}

/// What a worker saw of one block while scanning for an account: the block's
/// sequence and hash, and the hash of the block before it.
#[derive(Debug, PartialEq, Eq)]
pub struct Report {
    pub address: String,
    pub sequence: i64,
    pub hash: String,
    pub parent_hash: String,
}

impl View for Report {
    type V = ReportView;

    open spec fn view(&self) -> ReportView {
        ReportView {
            address: self.address@,
            sequence: self.sequence,
            hash: self.hash@,
            parent_hash: self.parent_hash@,
        }
    }
}

impl Clone for Report {
    fn clone(&self) -> (r: Self)
        ensures
            r == *self,
    {
        Report {
            address: self.address.clone(),
            sequence: self.sequence,
            hash: self.hash.clone(),
            parent_hash: self.parent_hash.clone(),
        }
    }
}

/// What became of a report that was applied.
#[derive(Clone, Copy, Debug, PartialEq, Eq, Structural)]
pub enum Outcome {
    /// The report continued the confirmed chain: the head moved to its
    /// sequence, and on through the observations that were linked to it.
    Extended,
    /// The report was kept as a provisional observation.
    Stored,
    /// The report repeated the stable checkpoint: nothing changed.
    Duplicate,
    /// The report contradicted what was held: the account was set back and
    /// flagged for a rescan.
    Rewound,
}

/// How a report stands to the ledger.
pub enum Verdict {
    /// The sequence is the lowest there is, so no block stands before it.
    Malformed,
    /// No account is held at the address.
    Unknown,
    /// The sequence lies below the head.
    Stale,
    /// The report names the stable checkpoint itself.
    Duplicate,
    /// The report names another block than the one held at its sequence.
    Fork,
    /// The report names the block after the head, on top of the stable hash.
    Extends,
    /// The report is neither of these: it is a provisional observation.
    Provisional,
}

/// The hash held for `address` at `sequence` on its tentative path: the
/// stable hash at the head, the observed hash above it.
pub open spec fn path_hash(v: LedgerView, address: Seq<char>, sequence: int) -> Seq<char> {
    if sequence == v.accounts[address].head {
        v.accounts[address].hash
    } else {
        v.unstable[(address, sequence as i64)].hash
    }
}

/// Whether the observation for `address` at `sequence` is held and came with
/// the hash held one sequence below it as its parent.
pub open spec fn linked(v: LedgerView, address: Seq<char>, sequence: int) -> bool {
    &&& sequence <= i64::MAX
    &&& v.unstable.contains_key((address, sequence as i64))
    &&& v.unstable[(address, sequence as i64)].parent == Some(
        path_hash(v, address, sequence - 1),
    )
}

/// Whether the observations of `address` form an unbroken chain from its head
/// up to `k`: each sequence in between is held, and each is linked to the one
/// below it, the lowest to the stable hash.
pub open spec fn chained(v: LedgerView, address: Seq<char>, k: int) -> bool {
    &&& v.accounts[address].head <= k
    &&& forall|s: int| v.accounts[address].head < s <= k ==> #[trigger] linked(v, address, s)
}

/// Whether the unbroken chain of `address` ends at `k`.
pub open spec fn run_end(v: LedgerView, address: Seq<char>, k: int) -> bool {
    chained(v, address, k) && !linked(v, address, k + 1)
}

/// The sequence at which the unbroken chain of `address` ends.
pub open spec fn promoted_head(v: LedgerView, address: Seq<char>) -> int {
    choose|k: int| run_end(v, address, k)
}

/// The ledger after the unbroken chain of `address` was promoted: the stable
/// checkpoint stands at the end of the chain, and the promoted observations
/// are gone.
pub open spec fn promoted(v: LedgerView, address: Seq<char>) -> LedgerView {
    let k = promoted_head(v, address);
    if k == v.accounts[address].head {
        v
    } else {
        v.advanced(address, k as i64, path_hash(v, address, k))
    }
}

/// The unbroken chain of an account ends at one sequence only.
pub proof fn lemma_run_end_unique(v: LedgerView, address: Seq<char>, k1: int, k2: int)
    requires
        run_end(v, address, k1),
        run_end(v, address, k2),
    ensures
        k1 == k2,
{
    if k1 < k2 {
        assert(linked(v, address, k1 + 1));
    } else if k2 < k1 {
        assert(linked(v, address, k2 + 1));
    }
}

/// A chain that reaches `k` ends somewhere at or above `k`.
pub proof fn lemma_run_end_exists(v: LedgerView, address: Seq<char>, k: int)
    requires
        chained(v, address, k),
        k <= i64::MAX,
    ensures
        exists|e: int| k <= e && run_end(v, address, e),
    decreases i64::MAX - k,
{
    if linked(v, address, k + 1) {
        assert forall|s: int| v.accounts[address].head < s <= k + 1 implies #[trigger] linked(
            v,
            address,
            s,
        ) by {}
        lemma_run_end_exists(v, address, k + 1);
    } else {
        assert(run_end(v, address, k));
    }
}

/// Where a chain ends at `k`, promotion moves the head there.
pub proof fn lemma_promoted_at(v: LedgerView, address: Seq<char>, k: int)
    requires
        run_end(v, address, k),
    ensures
        promoted_head(v, address) == k,
{
    lemma_run_end_unique(v, address, k, promoted_head(v, address));
}

/// The checkpoint to which a fork sends the account back. A fork above the
/// head leaves the stable checkpoint, the common ancestor that is held. A
/// fork at the head goes one sequence below it, to the parent that the
/// report names, but never below the origin bound: there the origin itself
/// is the checkpoint.
pub open spec fn rewind_point(account: AccountView, report: ReportView) -> (i64, Seq<char>) {
    if report.sequence > account.head {
        (account.head, account.hash)
    } else if account.create_head is Some && account.create_hash is Some && report.sequence - 1
        < account.create_head->Some_0 {
        (account.create_head->Some_0, account.create_hash->Some_0)
    } else {
        ((report.sequence - 1) as i64, report.parent_hash)
    }
}

/// How `report` stands to the ledger `v`.
pub open spec fn verdict(v: LedgerView, report: ReportView) -> Verdict {
    if report.sequence == i64::MIN {
        Verdict::Malformed
    } else if !v.has(report.address) {
        Verdict::Unknown
    } else {
        let account = v.accounts[report.address];
        if report.sequence < account.head {
            Verdict::Stale
        } else if report.sequence == account.head {
            if report.hash == account.hash {
                Verdict::Duplicate
            } else {
                Verdict::Fork
            }
        } else if v.has_row(report.address, report.sequence) && v.unstable[(
            report.address,
            report.sequence,
        )].hash != report.hash {
            Verdict::Fork
        } else if report.sequence - 1 == account.head && report.parent_hash == account.hash {
            Verdict::Extends
        } else {
            Verdict::Provisional
        }
    }
}

/// The ledger after `report` was applied to `v`.
pub open spec fn applied(v: LedgerView, report: ReportView) -> LedgerView {
    match verdict(v, report) {
        Verdict::Malformed | Verdict::Unknown | Verdict::Stale | Verdict::Duplicate => v,
        Verdict::Fork => {
            let point = rewind_point(v.accounts[report.address], report);
            v.rewound(report.address, point.0, point.1)
        },
        Verdict::Extends => promoted(
            v.advanced(report.address, report.sequence, report.hash),
            report.address,
        ),
        Verdict::Provisional => v.observed(
            report.address,
            report.sequence,
            RowView { hash: report.hash, parent: Some(report.parent_hash) },
        ),
    }
}

/// What applying `report` to `v` answers.
pub open spec fn answer(v: LedgerView, report: ReportView) -> Result<Outcome, OreoError> {
    match verdict(v, report) {
        Verdict::Malformed => Err(OreoError::Invalid),
        Verdict::Unknown => Err(OreoError::NotFound),
        Verdict::Stale => Err(OreoError::Invalid),
        Verdict::Duplicate => Ok(Outcome::Duplicate),
        Verdict::Fork => Ok(Outcome::Rewound),
        Verdict::Extends => Ok(Outcome::Extended),
        Verdict::Provisional => Ok(Outcome::Stored),
    }
}

/// Promotes the unbroken chain of observations of `address`: as long as the
/// observation one sequence above the head is held and came with the stable
/// hash as its parent, the head moves up to it. Returns the head reached.
pub fn promote(ledger: &mut Ledger, address: &str) -> (r: Result<i64, OreoError>)
    requires
        old(ledger).inv(),
    ensures
        final(ledger).inv(),
        match r {
            Ok(head) => old(ledger)@.has(address@) && head == promoted_head(
                old(ledger)@,
                address@,
            ) && final(ledger)@ == promoted(old(ledger)@, address@),
            Err(e) => e == OreoError::NotFound && !old(ledger)@.has(address@) && final(ledger)@
                == old(ledger)@,
        },
{
    let account = match ledger.get(address) {
        Ok(a) => a,
        Err(_) => {
            return Err(OreoError::NotFound);
        },
    };
    let start = account.head;
    let mut head: i64 = account.head;
    let mut hash: String = account.hash;
    let ghost v = ledger@;
    while head < i64::MAX
        invariant
            ledger.inv(),
            ledger@ == v,
            v.has(address@),
            start == v.accounts[address@].head,
            chained(v, address@, head as int),
            hash@ == path_hash(v, address@, head as int),
        ensures
            chained(v, address@, head as int),
            hash@ == path_hash(v, address@, head as int),
            !linked(v, address@, head + 1),
            ledger@ == v,
            ledger.inv(),
        decreases i64::MAX - head,
    {
        let next: i64 = head + 1;
        let parent = match ledger.unstable_parent(address, next) {
            Ok(Some(p)) => p,
            _ => {
                break ;
            },
        };
        if !same(parent.as_str(), hash.as_str()) {
            break ;
        }
        let row = match ledger.get_unstable(address, next) {
            Ok(row) => row,
            Err(_) => {
                break ;
            },
        };
        proof {
            assert(linked(v, address@, next as int));
            assert forall|s: int| v.accounts[address@].head < s <= next implies #[trigger] linked(
                v,
                address@,
                s,
            ) by {}
            ledger.lemma_inv();
        }
        head = next;
        hash = row.hash;
    }
    proof {
        assert(run_end(v, address@, head as int));
        lemma_promoted_at(v, address@, head as int);
    }
    if head != start {
        let _ = ledger.advance_head(address, head, hash);
    }
    Ok(head)
}

/// Applies one report of a worker to the ledger. A report that continues the
/// stable checkpoint moves the head; one that contradicts what is held sets
/// the account back and flags it; one below the head is dropped; any other is
/// kept as a provisional observation.
pub fn apply_report(ledger: &mut Ledger, report: &Report) -> (r: Result<Outcome, OreoError>)
    requires
        old(ledger).inv(),
    ensures
        final(ledger).inv(),
        final(ledger)@ == applied(old(ledger)@, report@),
        r == answer(old(ledger)@, report@),
{
    if report.sequence == i64::MIN {
        return Err(OreoError::Invalid);
    }
    let address = report.address.as_str();
    let account = match ledger.get(address) {
        Ok(a) => a,
        Err(_) => {
            return Err(OreoError::NotFound);
        },
    };
    if report.sequence < account.head {
        return Err(OreoError::Invalid);
    }
    if report.sequence == account.head {
        if same(report.hash.as_str(), account.hash.as_str()) {
            return Ok(Outcome::Duplicate);
        }
        let below: i64 = report.sequence - 1;
        match (account.create_head, account.create_hash) {
            (Some(c), Some(ch)) => {
                if below < c {
                    let _ = ledger.rewind(address, c, ch);
                } else {
                    let _ = ledger.rewind(address, below, report.parent_hash.clone());
                }
            },
            _ => {
                let _ = ledger.rewind(address, below, report.parent_hash.clone());
            },
        }
        return Ok(Outcome::Rewound);
    }
    let forked = match ledger.get_unstable(address, report.sequence) {
        Ok(row) => !same(row.hash.as_str(), report.hash.as_str()),
        Err(_) => false,
    };
    if forked {
        let _ = ledger.rewind(address, account.head, account.hash);
        return Ok(Outcome::Rewound);
    }
    if report.sequence - 1 == account.head && same(
        report.parent_hash.as_str(),
        account.hash.as_str(),
    ) {
        let _ = ledger.advance_head(address, report.sequence, report.hash.clone());
        let _ = promote(ledger, address);
        Ok(Outcome::Extended)
    } else {
        let row = UnstableAccount {
            address: report.address.clone(),
            sequence: report.sequence,
            hash: report.hash.clone(),
        };
        let _ = ledger.put_linked(row, report.parent_hash.clone());
        Ok(Outcome::Stored)
    }
}

} // verus!
