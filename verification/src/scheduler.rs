use crate::account::{Account, AccountView};
use crate::error::OreoError;
use crate::ledger::Ledger;
use crate::model::LedgerView;
use crate::rank::{account_views, is_selection, key_before, lemma_key_asymmetric, lists, Filter};
use crate::store::DBHandler;
use vstd::prelude::*;

verus! {

/// What a `Job` holds, as mathematical values.
pub struct JobView {
    pub address: Seq<char>,
    pub from_sequence: i64,
    pub to_sequence: i64,
}

/// One assignment of scan work: the blocks from `from_sequence` up to and
/// including `to_sequence`, for the account at `address`.
#[derive(Debug, PartialEq, Eq)]
pub struct Job {
    pub address: String,
    pub from_sequence: i64,
    pub to_sequence: i64,
}

impl View for Job {
    type V = JobView;

    open spec fn view(&self) -> JobView {
        JobView {
            address: self.address@,
            from_sequence: self.from_sequence,
            to_sequence: self.to_sequence,
        }
    }
}

impl Clone for Job {
    fn clone(&self) -> (r: Self)
        ensures
            r == *self,
    {
        Job {
            address: self.address.clone(),
            from_sequence: self.from_sequence,
            to_sequence: self.to_sequence,
        }
    }
}

/// The view of an optional job.
pub open spec fn job_view(j: Option<Job>) -> Option<JobView> {
    match j {
        Some(x) => Some(x@),
        None => None,
    }
}

/// The job that brings `account` up to the node's latest block: the blocks
/// above its head, up to and including `node_latest`. There is none where the
/// account has reached `node_latest` already.
pub open spec fn job_of(account: AccountView, node_latest: i64) -> Option<JobView> {
    if account.head < node_latest {
        Some(
            JobView {
                address: account.address,
                from_sequence: (account.head + 1) as i64,
                to_sequence: node_latest,
            },
        )
    } else {
        None
    }
}

/// The job that brings `account` up to the node's latest block.
pub fn job_for(account: &Account, node_latest: i64) -> (r: Option<Job>)
    ensures
        job_view(r) == job_of(account@, node_latest),
{
    if account.head < node_latest {
        Some(
            Job {
                address: account.address.clone(),
                from_sequence: account.head + 1,
                to_sequence: node_latest,
            },
        )
    } else {
        None
    }
}

/// The room that `limit` leaves once `taken` accounts are scheduled.
pub open spec fn room(limit: usize, taken: int) -> usize {
    if limit > taken {
        (limit - taken) as usize
    } else {
        0
    }
}

/// Whether `r` is the list of candidates under `limit`: first every account
/// that is flagged for a rescan, then the unflagged accounts that fill what
/// room is left, each part in the order of service.
pub open spec fn is_candidate_list(v: LedgerView, limit: usize, r: Seq<AccountView>) -> bool {
    exists|m: int|
        0 <= m <= r.len() && #[trigger] is_selection(
            v,
            Filter::Flag(true),
            None,
            r.subrange(0, m),
        ) && is_selection(v, Filter::Flag(false), Some(room(limit, m)), r.subrange(m, r.len() as int))
}

/// The accounts to scan next, in the order in which they are to be served:
/// every account flagged for a rescan, whatever `limit` says, and after them
/// the least scanned of the others, as far as `limit` leaves room.
pub fn candidates(ledger: &Ledger, limit: usize) -> (r: Vec<Account>)
    requires
        ledger.inv(),
    ensures
        is_candidate_list(ledger@, limit, account_views(r@)),
{
    let mut out = ledger.select(Filter::Flag(true), None);
    let ghost m = out@.len() as int;
    let ghost urgent = account_views(out@);
    let left: usize = if limit > out.len() {
        limit - out.len()
    } else {
        0
    };
    let mut fill = ledger.select(Filter::Flag(false), Some(left));
    let ghost regular = account_views(fill@);
    out.append(&mut fill);
    proof {
        let r = account_views(out@);
        assert(r.subrange(0, m) =~= urgent);
        assert(r.subrange(m, r.len() as int) =~= regular);
        assert(is_selection(ledger@, Filter::Flag(true), None, r.subrange(0, m)));
    }
    out
}

/// Picks from `all`, which is in the order of service, the accounts whose
/// rescan flag is `flag`, in the same order, and with a limit the first
/// `limit` of them. Where `all` holds every account of a ledger, the result
/// is the selection by that flag of that ledger.
pub fn pick(all: &Vec<Account>, flag: bool, limit: Option<usize>) -> (r: Vec<Account>)
    ensures
        forall|v: LedgerView| #[trigger]
            is_selection(v, Filter::All, None, account_views(all@)) ==> is_selection(
                v,
                Filter::Flag(flag),
                limit,
                account_views(r@),
            ),
{
    let mut out: Vec<Account> = Vec::new();
    let ghost mut src: Seq<int> = Seq::empty();
    let mut i: usize = 0;
    let bounded = limit.is_some();
    let cap: usize = match limit {
        Some(n) => n,
        None => 0,
    };
    while i < all.len() && (!bounded || out.len() < cap)
        invariant
            bounded == (limit is Some),
            limit matches Some(n) ==> cap == n,
            i <= all@.len(),
            src.len() == out@.len(),
            limit matches Some(n) ==> out@.len() <= n,
            forall|j: int|
                0 <= j < out@.len() ==> 0 <= #[trigger] src[j] < i && out@[j]@ == all@[src[j]]@
                    && all@[src[j]].need_scan == flag,
            forall|j: int, k: int| 0 <= j < k < src.len() ==> #[trigger] src[j] < #[trigger] src[k],
            forall|e: int|
                0 <= e < i && (#[trigger] all@[e]).need_scan == flag ==> exists|j: int|
                    0 <= j < src.len() && #[trigger] src[j] == e,
        ensures
            i <= all@.len(),
            src.len() == out@.len(),
            limit matches Some(n) ==> out@.len() <= n,
            i < all@.len() ==> (limit matches Some(n) && out@.len() == n),
            forall|j: int|
                0 <= j < out@.len() ==> 0 <= #[trigger] src[j] < i && out@[j]@ == all@[src[j]]@
                    && all@[src[j]].need_scan == flag,
            forall|j: int, k: int| 0 <= j < k < src.len() ==> #[trigger] src[j] < #[trigger] src[k],
            forall|e: int|
                0 <= e < i && (#[trigger] all@[e]).need_scan == flag ==> exists|j: int|
                    0 <= j < src.len() && #[trigger] src[j] == e,
        decreases all@.len() - i,
    {
        if all[i].need_scan == flag {
            let ghost before_src = src;
            out.push(all[i].clone());
            proof {
                src = before_src.push(i as int);
                assert forall|e: int|
                    0 <= e < i + 1 && (#[trigger] all@[e]).need_scan == flag implies exists|j: int|
                    0 <= j < src.len() && #[trigger] src[j] == e by {
                    if e == i {
                        assert(src[src.len() - 1] == e);
                    } else {
                        let j = choose|j: int|
                            0 <= j < before_src.len() && #[trigger] before_src[j] == e;
                        assert(src[j] == e);
                    }
                }
            }
        }
        i += 1;
    }
    proof {
        let a = account_views(all@);
        let r = account_views(out@);
        assert forall|v: LedgerView| #[trigger]
            is_selection(v, Filter::All, None, a) implies is_selection(
            v,
            Filter::Flag(flag),
            limit,
            r,
        ) by {
            assert forall|j: int, k: int| 0 <= j < k < r.len() implies key_before(
                #[trigger] r[j],
                #[trigger] r[k],
            ) by {
                assert(src[j] < src[k]);
                assert(key_before(a[src[j]], a[src[k]]));
            }
            assert forall|j: int| 0 <= j < r.len() implies v.accounts.contains_key(
                (#[trigger] r[j]).address,
            ) && v.accounts[r[j].address] == r[j] && Filter::Flag(flag).admits(r[j]) by {
                assert(r[j] == a[src[j]]);
            }
            assert forall|x: Seq<char>| #[trigger]
                v.accounts.contains_key(x) && Filter::Flag(flag).admits(
                    v.accounts[x],
                ) implies lists(r, v.accounts[x]) || (limit matches Some(n) && r.len() == n
                && forall|j: int| 0 <= j < r.len() ==> key_before(#[trigger] r[j], v.accounts[x]))
            by {
                assert(Filter::All.admits(v.accounts[x]));
                assert(lists(a, v.accounts[x]));
                let e = choose|e: int| 0 <= e < a.len() && #[trigger] a[e] == v.accounts[x];
                assert(all@[e].need_scan == flag);
                if e < i {
                    let j = choose|j: int| 0 <= j < src.len() && #[trigger] src[j] == e;
                    assert(r[j] == v.accounts[x]);
                } else {
                    assert forall|j: int| 0 <= j < r.len() implies key_before(
                        #[trigger] r[j],
                        v.accounts[x],
                    ) by {
                        assert(r[j] == a[src[j]]);
                        assert(src[j] < e);
                        assert(key_before(a[src[j]], a[e]));
                    }
                }
            }
        }
    }
    out
}

/// The accounts of `store` to scan next, in the order in which they are to
/// be served: every account flagged for a rescan, whatever `limit` says, and
/// after them the least scanned of the others, as far as `limit` leaves
/// room. A store out of reach is unavailable.
pub fn candidates_of<T: DBHandler>(store: &T, limit: usize) -> (r: Result<Vec<Account>, OreoError>)
    requires
        store.in_order(),
    ensures
        match r {
            Ok(list) => is_candidate_list(store.contents(), limit, account_views(list@)),
            Err(e) => e == OreoError::Unavailable,
        },
{
    let all = match store.get_oldest_accounts() {
        Ok(all) => all,
        Err(e) => {
            return Err(e);
        },
    };
    let mut out = pick(&all, true, None);
    let ghost m = out@.len() as int;
    let ghost urgent = account_views(out@);
    let left: usize = if limit > out.len() {
        limit - out.len()
    } else {
        0
    };
    let mut fill = pick(&all, false, Some(left));
    let ghost regular = account_views(fill@);
    out.append(&mut fill);
    proof {
        let r = account_views(out@);
        assert(r.subrange(0, m) =~= urgent);
        assert(r.subrange(m, r.len() as int) =~= regular);
        assert(is_selection(store.contents(), Filter::All, None, account_views(all@)));
        assert(is_selection(store.contents(), Filter::Flag(true), None, r.subrange(0, m)));
    }
    Ok(out)
}

/// No account stands twice in a list of candidates.
pub proof fn lemma_candidates_distinct(
    v: LedgerView,
    limit: usize,
    r: Seq<AccountView>,
    i: int,
    j: int,
)
    requires
        is_candidate_list(v, limit, r),
        0 <= i < j < r.len(),
    ensures
        r[i].address != r[j].address,
{
    let m = choose|m: int|
        0 <= m <= r.len() && #[trigger] is_selection(
            v,
            Filter::Flag(true),
            None,
            r.subrange(0, m),
        ) && is_selection(v, Filter::Flag(false), Some(room(limit, m)), r.subrange(m, r.len() as int));
    let urgent = r.subrange(0, m);
    let regular = r.subrange(m, r.len() as int);
    if j < m {
        assert(key_before(urgent[i], urgent[j]));
        lemma_key_asymmetric(r[i], r[j]);
        if r[i].address == r[j].address {
            assert(v.accounts[urgent[i].address] == urgent[i]);
            assert(v.accounts[urgent[j].address] == urgent[j]);
        }
    } else if i >= m {
        assert(key_before(regular[i - m], regular[j - m]));
        lemma_key_asymmetric(r[i], r[j]);
        if r[i].address == r[j].address {
            assert(v.accounts[regular[i - m].address] == regular[i - m]);
            assert(v.accounts[regular[j - m].address] == regular[j - m]);
        }
    } else {
        assert(urgent[i].need_scan);
        assert(!regular[j - m].need_scan);
        if r[i].address == r[j].address {
            assert(v.accounts[urgent[i].address] == urgent[i]);
            assert(v.accounts[regular[j - m].address] == regular[j - m]);
        }
    }
}

} // verus!
