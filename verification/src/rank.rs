use crate::account::{Account, AccountView};
use crate::model::LedgerView;
use crate::text::{before, lemma_text_asymmetric, lemma_text_total, lemma_text_transitive, text_before};
use vstd::prelude::*;

verus! {

/// Whether account `a` is served before account `b`: the lower head first,
/// and of two equal heads the address that stands first.
pub open spec fn key_before(a: AccountView, b: AccountView) -> bool {
    a.head < b.head || (a.head == b.head && text_before(a.address, b.address))
}

/// No account is served before itself, and of two accounts at most one is
/// served before the other.
pub proof fn lemma_key_asymmetric(a: AccountView, b: AccountView)
    ensures
        !key_before(a, a),
        !(key_before(a, b) && key_before(b, a)),
{
    lemma_text_asymmetric(a.address, b.address);
}

/// The order of service is transitive.
pub proof fn lemma_key_transitive(a: AccountView, b: AccountView, c: AccountView)
    requires
        key_before(a, b),
        key_before(b, c),
    ensures
        key_before(a, c),
{
    if a.head == b.head && b.head == c.head {
        lemma_text_transitive(a.address, b.address, c.address);
    }
}

/// Of two accounts with different addresses one is served before the other.
pub proof fn lemma_key_total(a: AccountView, b: AccountView)
    requires
        a.address != b.address,
    ensures
        key_before(a, b) || key_before(b, a),
{
    lemma_text_total(a.address, b.address);
}

/// Whether account `a` is served before account `b`.
pub fn served_before(a: &Account, b: &Account) -> (r: bool)
    ensures
        r == key_before(a@, b@),
{
    if a.head != b.head {
        a.head < b.head
    } else {
        before(a.address.as_str(), b.address.as_str())
    }
}

/// Which accounts a selection takes.
#[derive(Clone, Copy, Debug, PartialEq, Eq, Structural)]
pub enum Filter {
    /// Every account.
    All,
    /// The accounts whose rescan flag has this value.
    Flag(bool),
    /// The accounts whose head is at least this sequence.
    HeadAtLeast(i64),
}

impl Filter {
    /// Whether the selection takes `a`.
    pub open spec fn admits(self, a: AccountView) -> bool {
        match self {
            Filter::All => true,
            Filter::Flag(f) => a.need_scan == f,
            Filter::HeadAtLeast(h) => a.head >= h,
        }
    }

    /// Whether the selection takes `a`.
    pub fn test(&self, a: &Account) -> (r: bool)
        ensures
            r == self.admits(a@),
    {
        match self {
            Filter::All => true,
            Filter::Flag(f) => a.need_scan == *f,
            Filter::HeadAtLeast(h) => a.head >= *h,
        }
    }
}

/// What a list of accounts holds, as mathematical values.
pub open spec fn account_views(s: Seq<Account>) -> Seq<AccountView> {
    Seq::new(s.len(), |i: int| s[i]@)
}

/// Whether `r` is in the order of service, each account before the next.
pub open spec fn in_service_order(r: Seq<AccountView>) -> bool {
    forall|i: int, j: int| 0 <= i < j < r.len() ==> key_before(#[trigger] r[i], #[trigger] r[j])
}

/// Whether every account in `r` is one that the ledger holds, as the ledger
/// holds it, and one that the selection takes.
pub open spec fn drawn_from(v: LedgerView, f: Filter, r: Seq<AccountView>) -> bool {
    forall|i: int|
        0 <= i < r.len() ==> v.accounts.contains_key((#[trigger] r[i]).address)
            && v.accounts[r[i].address] == r[i] && f.admits(r[i])
}

/// Whether `r` holds the account `a`.
pub open spec fn lists(r: Seq<AccountView>, a: AccountView) -> bool {
    exists|i: int| 0 <= i < r.len() && #[trigger] r[i] == a
}

/// Whether `r` is the selection `f` of the ledger's accounts in the order of
/// service, cut off after `limit` accounts where there is a limit: whatever
/// the selection takes and `r` lacks is served after all of `r`, and `r` is
/// then full.
pub open spec fn is_selection(
    v: LedgerView,
    f: Filter,
    limit: Option<usize>,
    r: Seq<AccountView>,
) -> bool {
    &&& in_service_order(r)
    &&& drawn_from(v, f, r)
    &&& limit matches Some(n) ==> r.len() <= n
    &&& forall|a: Seq<char>| #[trigger]
        v.accounts.contains_key(a) && f.admits(v.accounts[a]) ==> lists(r, v.accounts[a]) || (
        limit matches Some(n) && r.len() == n && forall|i: int|
            0 <= i < r.len() ==> key_before(#[trigger] r[i], v.accounts[a]))
}

/// A selection is determined by the ledger, the filter and the limit.
pub proof fn lemma_selection_unique(
    v: LedgerView,
    f: Filter,
    limit: Option<usize>,
    r1: Seq<AccountView>,
    r2: Seq<AccountView>,
)
    requires
        v.wf(),
        is_selection(v, f, limit, r1),
        is_selection(v, f, limit, r2),
    ensures
        r1 == r2,
{
    lemma_selection_prefix(v, f, limit, r1, r2, r1.len() as int);
    lemma_selection_prefix(v, f, limit, r2, r1, r2.len() as int);
    assert(r1 =~= r2);
}

/// Two selections of the same ledger agree on their first `k` accounts, for
/// every `k` within the first.
proof fn lemma_selection_prefix(
    v: LedgerView,
    f: Filter,
    limit: Option<usize>,
    r1: Seq<AccountView>,
    r2: Seq<AccountView>,
    k: int,
)
    requires
        v.wf(),
        is_selection(v, f, limit, r1),
        is_selection(v, f, limit, r2),
        0 <= k <= r1.len(),
    ensures
        k <= r2.len(),
        forall|i: int| 0 <= i < k ==> r1[i] == r2[i],
    decreases k,
{
    if k > 0 {
        lemma_selection_prefix(v, f, limit, r1, r2, k - 1);
        let x = r1[k - 1];
        assert(v.accounts.contains_key(x.address) && v.accounts[x.address] == x);
        // x is in r2, or r2 is full and all of it is served before x
        if lists(r2, x) {
            let j = choose|j: int| 0 <= j < r2.len() && r2[j] == x;
            if j < k - 1 {
                assert(r1[j] == r2[j]);
                lemma_key_asymmetric(r1[j], x);
                assert(key_before(r1[j], r1[k - 1]));
            } else if j > k - 1 {
                // r2[k - 1] is served before x and so has to be in r1 before index k - 1
                let y = r2[k - 1];
                assert(key_before(y, r2[j]));
                assert(v.accounts.contains_key(y.address) && v.accounts[y.address] == y);
                if lists(r1, y) {
                    let m = choose|m: int| 0 <= m < r1.len() && r1[m] == y;
                    if m < k - 1 {
                        assert(r1[m] == r2[m]);
                        assert(key_before(r2[m], r2[k - 1]));
                        lemma_key_asymmetric(y, y);
                    } else if m > k - 1 {
                        assert(key_before(r1[k - 1], r1[m]));
                        lemma_key_asymmetric(x, y);
                    } else {
                        lemma_key_asymmetric(x, x);
                    }
                } else {
                    assert(key_before(r1[k - 1], y));
                    lemma_key_asymmetric(x, y);
                }
            }
        } else {
            let n = limit->Some_0;
            assert(r2.len() == n && r1.len() <= n);
            if k - 1 < r2.len() {
                // r2[k - 1] is served before x; it is then in r1, before index k - 1
                let y = r2[k - 1];
                assert(key_before(y, x));
                assert(v.accounts.contains_key(y.address) && v.accounts[y.address] == y);
                if lists(r1, y) {
                    let m = choose|m: int| 0 <= m < r1.len() && r1[m] == y;
                    if m < k - 1 {
                        assert(r1[m] == r2[m]);
                        assert(key_before(r2[m], r2[k - 1]));
                        lemma_key_asymmetric(y, y);
                    } else if m > k - 1 {
                        assert(key_before(r1[k - 1], r1[m]));
                        lemma_key_asymmetric(x, y);
                    } else {
                        lemma_key_asymmetric(x, x);
                    }
                } else {
                    assert(key_before(r1[k - 1], y));
                    lemma_key_asymmetric(x, y);
                }
            } else {
                assert(r2.len() <= k - 1);
                assert(false);
            }
        }
    }
}

} // verus!
