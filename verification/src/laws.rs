use crate::account::AccountView;
use crate::model::{LedgerView, RowView};
use crate::node::canonical;
use crate::reconcile::{
    applied, chained, lemma_promoted_at, lemma_run_end_exists, linked, path_hash, promoted,
    promoted_head, run_end, verdict, ReportView, Verdict,
};
use vstd::prelude::*;

verus! {

/// Once an account is removed, the ledger holds neither
/// the account nor any observation for its address.
pub proof fn lemma_removal_cascades(v: LedgerView, address: Seq<char>, sequence: i64)
    ensures
        !v.removed(address).has(address),
        !v.removed(address).has_row(address, sequence),
{
}

/// Every operation of the store keeps the ledger well-formed, on the inputs
/// on which the store carries it out.
pub proof fn lemma_store_keeps_wf(
    v: LedgerView,
    address: Seq<char>,
    head: i64,
    hash: Seq<char>,
    flag: bool,
    row: RowView,
)
    requires
        v.wf(),
        v.has(address),
    ensures
        v.removed(address).wf(),
        v.advanced(address, head, hash).wf(),
        v.created(address, head, hash).wf(),
        v.flagged(address, flag).wf(),
        v.rewound(address, head, hash).wf(),
        v.forgotten(address, head).wf(),
        head > v.accounts[address].head ==> v.observed(address, head, row).wf(),
{
}

/// Promotion never moves the head down, and keeps the ledger well-formed.
pub proof fn lemma_promotion_moves_up(v: LedgerView, address: Seq<char>)
    requires
        v.wf(),
        v.has(address),
    ensures
        run_end(v, address, promoted_head(v, address)),
        promoted(v, address).wf(),
        promoted(v, address).has(address),
        promoted(v, address).accounts[address].head == promoted_head(v, address),
        promoted(v, address).accounts[address].head >= v.accounts[address].head,
        promoted(v, address).accounts[address].hash == path_hash(
            v,
            address,
            promoted_head(v, address),
        ),
        promoted(v, address).accounts[address].need_scan == v.accounts[address].need_scan,
{
    assert(chained(v, address, v.accounts[address].head as int));
    lemma_run_end_exists(v, address, v.accounts[address].head as int);
    let k = promoted_head(v, address);
    assert(run_end(v, address, k));
    if k > v.accounts[address].head {
        assert(linked(v, address, k));
    }
}

/// Applying a report keeps the ledger well-formed and holds on to every
/// account.
pub proof fn lemma_applied_keeps_wf(v: LedgerView, report: ReportView)
    requires
        v.wf(),
    ensures
        applied(v, report).wf(),
        forall|a: Seq<char>| v.has(a) <==> #[trigger] applied(v, report).has(a),
{
    match verdict(v, report) {
        Verdict::Extends => {
            let w = v.advanced(report.address, report.sequence, report.hash);
            lemma_promotion_moves_up(w, report.address);
        },
        _ => {},
    }
}

/// A report that is not a fork never moves the head of its
/// account down, and no report moves the head of another account.
pub proof fn lemma_no_regression(v: LedgerView, report: ReportView, address: Seq<char>)
    requires
        v.wf(),
        v.has(address),
    ensures
        applied(v, report).has(address),
        address != report.address ==> applied(v, report).accounts[address] == v.accounts[address],
        !(verdict(v, report) is Fork) ==> applied(v, report).accounts[address].head
            >= v.accounts[address].head,
{
    match verdict(v, report) {
        Verdict::Extends => {
            let w = v.advanced(report.address, report.sequence, report.hash);
            lemma_promotion_moves_up(w, report.address);
        },
        _ => {},
    }
}

/// A report that is not a fork, applied a second time, leaves
/// the ledger as the first application left it.
pub proof fn lemma_report_idempotent(v: LedgerView, report: ReportView)
    requires
        v.wf(),
        !(verdict(v, report) is Fork),
    ensures
        applied(applied(v, report), report) == applied(v, report),
{
    let once = applied(v, report);
    match verdict(v, report) {
        Verdict::Extends => {
            let w = v.advanced(report.address, report.sequence, report.hash);
            lemma_promotion_moves_up(w, report.address);
            assert(verdict(once, report) is Stale || verdict(once, report) is Duplicate);
        },
        Verdict::Provisional => {
            assert(verdict(once, report) is Provisional);
            assert(applied(once, report) =~= once);
        },
        _ => {},
    }
}

/// Whether the ledger `v` agrees with the chain `c`: the stable checkpoint
/// of every account that is not flagged for a rescan is a block of the
/// chain, and so is every observation.
pub open spec fn agrees(v: LedgerView, c: Seq<Seq<char>>) -> bool {
    &&& forall|a: Seq<char>| #[trigger]
        v.accounts.contains_key(a) && !v.accounts[a].need_scan ==> canonical(
            c,
            v.accounts[a].head as int,
            v.accounts[a].hash,
        )
    &&& forall|k: (Seq<char>, i64)| #[trigger]
        v.unstable.contains_key(k) ==> canonical(c, k.1 as int, v.unstable[k].hash)
}

/// Reports keep the checkpoints on the chain: where the ledger agrees with a
/// chain, it still does after a report of a block of that chain is applied.
pub proof fn lemma_report_keeps_agreement(v: LedgerView, c: Seq<Seq<char>>, report: ReportView)
    requires
        v.wf(),
        agrees(v, c),
        canonical(c, report.sequence as int, report.hash),
    ensures
        agrees(applied(v, report), c),
{
    match verdict(v, report) {
        Verdict::Extends => {
            let w = v.advanced(report.address, report.sequence, report.hash);
            assert(agrees(w, c));
            lemma_promotion_moves_up(w, report.address);
            let k = promoted_head(w, report.address);
            if k > report.sequence {
                assert(linked(w, report.address, k));
                assert(w.unstable.contains_key((report.address, k as i64)));
            }
        },
        _ => {},
    }
}

/// The store keeps the checkpoints on the chain: where the ledger
/// agrees with a chain, it still does after an account is saved, removed,
/// flagged or set back, after an observation is deleted, and after a
/// checkpoint or an observation is written that is a block of the chain.
pub proof fn lemma_store_keeps_agreement(
    v: LedgerView,
    c: Seq<Seq<char>>,
    address: Seq<char>,
    head: i64,
    hash: Seq<char>,
    row: RowView,
)
    requires
        v.wf(),
        agrees(v, c),
        v.has(address),
    ensures
        agrees(v.removed(address), c),
        agrees(v.flagged(address, true), c),
        agrees(v.rewound(address, head, hash), c),
        agrees(v.created(address, head, hash), c),
        agrees(v.forgotten(address, head), c),
        canonical(c, head as int, hash) ==> agrees(v.advanced(address, head, hash), c),
        canonical(c, head as int, row.hash) ==> agrees(v.observed(address, head, row), c),
        canonical(c, v.accounts[address].head as int, v.accounts[address].hash) ==> agrees(
            v.flagged(address, false),
            c,
        ),
{
}

/// Saving and promoting keep the checkpoints on the chain: where the ledger
/// agrees with a chain, it still does after an account is saved that is
/// flagged for a rescan or stands at a block of the chain, and after the
/// observations of an account are promoted.
pub proof fn lemma_growth_keeps_agreement(
    v: LedgerView,
    c: Seq<Seq<char>>,
    account: AccountView,
    tag: u32,
    address: Seq<char>,
)
    requires
        v.wf(),
        agrees(v, c),
    ensures
        !v.has(account.address) && (account.need_scan || canonical(
            c,
            account.head as int,
            account.hash,
        )) ==> agrees(v.saved(account, tag), c),
        v.has(address) ==> agrees(promoted(v, address), c),
{
    if v.has(address) {
        lemma_promotion_moves_up(v, address);
        let k = promoted_head(v, address);
        if k > v.accounts[address].head {
            assert(linked(v, address, k));
            assert(v.unstable.contains_key((address, k as i64)));
        }
    }
}

/// An account without observations whose head is extended
/// by one report, and then contradicted by a report of another block at the
/// same sequence, ends flagged for a rescan with its head one below that
/// sequence, or at its origin bound where that lies higher.
pub proof fn lemma_reorg_recovery(v: LedgerView, first: ReportView, second: ReportView)
    requires
        v.wf(),
        v.has(first.address),
        forall|s: i64| !v.has_row(first.address, s),
        first.sequence == v.accounts[first.address].head + 1,
        first.parent_hash == v.accounts[first.address].hash,
        second.address == first.address,
        second.sequence == first.sequence,
        second.hash != first.hash,
    ensures
        ({
            let before = v.accounts[first.address];
            let after = applied(applied(v, first), second).accounts[first.address];
            &&& after.need_scan
            &&& forall|s: i64| !applied(applied(v, first), second).has_row(first.address, s)
            &&& if before.create_head is Some && before.create_hash is Some && before.head
                < before.create_head->Some_0 {
                after.head == before.create_head->Some_0 && after.hash
                    == before.create_hash->Some_0
            } else {
                after.head == before.head && after.hash == second.parent_hash
            }
        }),
{
    let a = first.address;
    assert(verdict(v, first) is Extends);
    let w = v.advanced(a, first.sequence, first.hash);
    assert(!linked(w, a, first.sequence + 1)) by {
        if first.sequence + 1 <= i64::MAX {
            assert(!v.has_row(a, (first.sequence + 1) as i64));
        }
    }
    assert(run_end(w, a, first.sequence as int));
    lemma_promoted_at(w, a, first.sequence as int);
    assert(applied(v, first) == w);
    assert(verdict(w, second) is Fork);
}

/// What a worker reports of the `i`-th block above `base` on a path of
/// blocks: `path[0]` is the hash of the block at `base`, and `path[i]` the
/// hash of the block `i` sequences above it.
pub open spec fn path_report(
    address: Seq<char>,
    base: int,
    path: Seq<Seq<char>>,
    i: int,
) -> ReportView {
    ReportView {
        address: address,
        sequence: (base + i) as i64,
        hash: path[i],
        parent_hash: path[i - 1],
    }
}

/// The ledger after the reports of the blocks `order[0]`, `order[1]`, ... of
/// a path were applied to `v`, one after the other.
pub open spec fn delivered(
    v: LedgerView,
    address: Seq<char>,
    base: int,
    path: Seq<Seq<char>>,
    order: Seq<int>,
) -> LedgerView
    decreases order.len(),
{
    if order.len() == 0 {
        v
    } else {
        applied(
            delivered(v, address, base, path, order.drop_last()),
            path_report(address, base, path, order.last()),
        )
    }
}

/// Whether `v` is what the account at `address` has come to once the
/// reports in `done` were delivered, of a path that starts at the head
/// `base`: the head has moved up through the blocks that were all
/// delivered, and the other delivered blocks are held as observations, each
/// with its parent.
pub open spec fn tracks(
    v: LedgerView,
    address: Seq<char>,
    base: int,
    path: Seq<Seq<char>>,
    done: Set<int>,
) -> bool {
    let n = path.len() - 1;
    let m = v.accounts[address].head - base;
    &&& v.wf()
    &&& v.has(address)
    &&& 0 <= m <= n
    &&& v.accounts[address].hash == path[m]
    &&& forall|i: int| 1 <= i <= m ==> #[trigger] done.contains(i)
    &&& forall|i: int| #[trigger] done.contains(i) ==> 1 <= i <= n
    &&& m < n ==> !done.contains(m + 1)
    &&& forall|i: int|
        m < i <= n + 1 ==> (#[trigger] v.unstable.contains_key((address, (base + i) as i64))
            <==> done.contains(i))
    &&& forall|i: int|
        m < i <= n && done.contains(i) ==> #[trigger] v.unstable[(address, (base + i) as i64)]
            == (RowView { hash: path[i], parent: Some(path[i - 1]) })
}

/// One more report of the path, delivered in whatever order, leads from one
/// tracked state to the next, and the head does not move down.
pub proof fn lemma_delivery_step(
    v: LedgerView,
    address: Seq<char>,
    base: int,
    path: Seq<Seq<char>>,
    done: Set<int>,
    j: int,
)
    requires
        path.len() >= 1,
        i64::MIN <= base,
        base + path.len() <= i64::MAX,
        tracks(v, address, base, path, done),
        1 <= j <= path.len() - 1,
        !done.contains(j),
    ensures
        tracks(applied(v, path_report(address, base, path, j)), address, base, path, done.insert(j)),
        applied(v, path_report(address, base, path, j)).accounts[address].head
            >= v.accounts[address].head,
{
    let n = path.len() - 1;
    let m = v.accounts[address].head - base;
    let report = path_report(address, base, path, j);
    let more = done.insert(j);
    assert(j > m) by {
        if j <= m {
            assert(done.contains(j));
        }
    }
    assert(!v.unstable.contains_key((address, (base + j) as i64)));
    if j == m + 1 {
        assert(verdict(v, report) is Extends);
        let w = v.advanced(address, report.sequence, report.hash);
        // the head moves on through the blocks above j that were delivered
        let e = reach(more, j, n);
        lemma_reach(more, j, n);
        assert forall|s: int| w.accounts[address].head < s <= base + e implies #[trigger] linked(
            w,
            address,
            s,
        ) by {
            let i = s - base;
            assert(more.contains(i));
            assert(done.contains(i));
            assert(v.unstable.contains_key((address, (base + i) as i64)));
            assert(v.unstable[(address, (base + i) as i64)] == (RowView {
                hash: path[i],
                parent: Some(path[i - 1]),
            }));
            if i - 1 > j {
                assert(more.contains(i - 1));
                assert(done.contains(i - 1));
                assert(v.unstable[(address, (base + (i - 1)) as i64)] == (RowView {
                    hash: path[i - 1],
                    parent: Some(path[i - 2]),
                }));
            }
        }
        assert(!linked(w, address, base + e + 1)) by {
            if e < n {
                assert(!more.contains(e + 1));
                assert(!done.contains(e + 1));
            }
            assert(!v.unstable.contains_key((address, (base + (e + 1)) as i64)));
        }
        assert(run_end(w, address, base + e));
        lemma_promoted_at(w, address, base + e);
        let after = applied(v, report);
        assert(after == promoted(w, address));
        lemma_promotion_moves_up(w, address);
        if e > j {
            assert(more.contains(e));
            assert(done.contains(e));
            assert(v.unstable[(address, (base + e) as i64)] == (RowView {
                hash: path[e],
                parent: Some(path[e - 1]),
            }));
        }
        assert(after.accounts[address].hash == path[e]);
        assert forall|i: int| e < i <= n + 1 implies (#[trigger] after.unstable.contains_key(
            (address, (base + i) as i64),
        ) <==> more.contains(i)) by {
            assert(v.unstable.contains_key((address, (base + i) as i64)) <==> done.contains(i));
        }
        assert forall|i: int| e < i <= n && more.contains(i) implies #[trigger] after.unstable[(
            address,
            (base + i) as i64,
        )] == (RowView { hash: path[i], parent: Some(path[i - 1]) }) by {
            assert(done.contains(i));
            assert(v.unstable[(address, (base + i) as i64)] == (RowView {
                hash: path[i],
                parent: Some(path[i - 1]),
            }));
        }
        assert(tracks(after, address, base, path, more));
    } else {
        assert(verdict(v, report) is Provisional);
        let after = applied(v, report);
        assert forall|i: int| m < i <= n + 1 implies (#[trigger] after.unstable.contains_key(
            (address, (base + i) as i64),
        ) <==> more.contains(i)) by {
            assert(v.unstable.contains_key((address, (base + i) as i64)) <==> done.contains(i));
        }
        assert forall|i: int| m < i <= n && more.contains(i) implies #[trigger] after.unstable[(
            address,
            (base + i) as i64,
        )] == (RowView { hash: path[i], parent: Some(path[i - 1]) }) by {
            if i != j {
                assert(done.contains(i));
                assert(v.unstable[(address, (base + i) as i64)] == (RowView {
                    hash: path[i],
                    parent: Some(path[i - 1]),
                }));
            }
        }
        assert(tracks(after, address, base, path, more));
    }
}

/// How far the blocks in `done` reach without a gap, from block `m` on and
/// not beyond block `n`.
pub open spec fn reach(done: Set<int>, m: int, n: int) -> int
    decreases n - m,
{
    if m < n && done.contains(m + 1) {
        reach(done, m + 1, n)
    } else {
        m
    }
}

/// The reach from `m` lies between `m` and `n`, every block from `m + 1` up
/// to it is in `done`, and the block after it is not.
pub proof fn lemma_reach(done: Set<int>, m: int, n: int)
    requires
        m <= n,
    ensures
        m <= reach(done, m, n) <= n,
        forall|i: int| m < i <= reach(done, m, n) ==> #[trigger] done.contains(i),
        reach(done, m, n) < n ==> !done.contains(reach(done, m, n) + 1),
    decreases n - m,
{
    if m < n && done.contains(m + 1) {
        lemma_reach(done, m + 1, n);
    }
}

/// The reports of the blocks above the head of an account,
/// delivered one by one in any order and none of them twice, never move the
/// head below where it stood, and once all of them are delivered the head
/// stands at the last block of the path, with its hash.
pub proof fn lemma_out_of_order_delivery(
    v: LedgerView,
    address: Seq<char>,
    path: Seq<Seq<char>>,
    order: Seq<int>,
)
    requires
        v.wf(),
        v.has(address),
        forall|s: i64| !v.has_row(address, s),
        path.len() >= 1,
        path[0] == v.accounts[address].hash,
        v.accounts[address].head + path.len() <= i64::MAX,
        order.no_duplicates(),
        forall|k: int| 0 <= k < order.len() ==> 1 <= #[trigger] order[k] <= path.len() - 1,
    ensures
        tracks(
            delivered(v, address, v.accounts[address].head as int, path, order),
            address,
            v.accounts[address].head as int,
            path,
            order.to_set(),
        ),
        forall|k: int|
            0 <= k <= order.len() ==> (#[trigger] delivered(
                v,
                address,
                v.accounts[address].head as int,
                path,
                order.take(k),
            )).accounts[address].head >= v.accounts[address].head,
        (forall|i: int| 1 <= i <= path.len() - 1 ==> order.contains(i)) ==> {
            let last = delivered(v, address, v.accounts[address].head as int, path, order);
            &&& last.accounts[address].head == v.accounts[address].head + path.len() - 1
            &&& last.accounts[address].hash == path[path.len() - 1]
        },
    decreases order.len(),
{
    let base = v.accounts[address].head as int;
    let n = path.len() - 1;
    if order.len() == 0 {
        assert(order.to_set() =~= Set::<int>::empty());
        assert forall|i: int| 0 < i <= n + 1 implies !(#[trigger] v.unstable.contains_key(
            (address, (base + i) as i64),
        )) by {
            assert(!v.has_row(address, (base + i) as i64));
        }
        assert(tracks(v, address, base, path, Set::<int>::empty()));
        assert(order.take(0) =~= order);
    } else {
        let front = order.drop_last();
        let j = order.last();
        assert forall|k: int| 0 <= k < front.len() implies 1 <= #[trigger] front[k] <= n by {
            assert(front[k] == order[k]);
        }
        lemma_out_of_order_delivery(v, address, path, front);
        let mid = delivered(v, address, base, path, front);
        assert(!front.to_set().contains(j)) by {
            if front.contains(j) {
                let k = choose|k: int| 0 <= k < front.len() && front[k] == j;
                assert(order[k] == order[order.len() - 1]);
            }
        }
        lemma_delivery_step(mid, address, base, path, front.to_set(), j);
        assert(order.to_set() =~= front.to_set().insert(j)) by {
            assert forall|x: int| order.to_set().contains(x) <==> front.to_set().insert(
                j,
            ).contains(x) by {
                if order.contains(x) {
                    let k = choose|k: int| 0 <= k < order.len() && order[k] == x;
                    if k < front.len() {
                        assert(front[k] == x);
                    }
                }
                if front.contains(x) {
                    let k = choose|k: int| 0 <= k < front.len() && front[k] == x;
                    assert(order[k] == x);
                }
                if x == j {
                    assert(order[order.len() - 1] == x);
                }
            }
        }
        let last = delivered(v, address, base, path, order);
        assert forall|k: int| 0 <= k <= order.len() implies (#[trigger] delivered(
            v,
            address,
            base,
            path,
            order.take(k),
        )).accounts[address].head >= v.accounts[address].head by {
            if k == order.len() {
                assert(order.take(k) =~= order);
            } else {
                assert(order.take(k) =~= front.take(k));
            }
        }
        if forall|i: int| 1 <= i <= n ==> order.contains(i) {
            let m = last.accounts[address].head - base;
            if m < n {
                assert(order.contains(m + 1));
                assert(order.to_set().contains(m + 1));
            }
        }
    }
}

} // verus!
