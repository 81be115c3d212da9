use crate::account::{clone_opt, opt_view, Account, AccountView, UnstableAccount, UnstableView};
use crate::error::OreoError;
use crate::model::{discards, rows_without, LedgerView, RowView};
use crate::rank::{
    account_views, is_selection, key_before, lemma_key_total, lemma_key_transitive, lists,
    served_before, Filter,
};
use crate::text::same;
use vstd::prelude::*;

verus! {

/// An account as the ledger files it, with the tag it was saved under.
struct Entry {
    account: Account,
    origin: u32,
}

/// An observation as the ledger files it, with the parent hash it came with.
struct Row {
    row: UnstableAccount,
    parent: Option<String>,
}

/// The in-memory ledger: the only place that records the stable checkpoints
/// and the provisional observations.
pub struct Ledger {
    entries: Vec<Entry>,
    rows: Vec<Row>,
}

/// Whether the entry at index `i` is the one of `address`.
spec fn entry_at(es: Seq<Entry>, i: int, address: Seq<char>) -> bool {
    0 <= i < es.len() && es[i].account.address@ == address
}

/// Whether some entry is the one of `address`.
spec fn has_entry(es: Seq<Entry>, address: Seq<char>) -> bool {
    exists|i: int| entry_at(es, i, address)
}

/// The index of the entry of `address`.
spec fn entry_index(es: Seq<Entry>, address: Seq<char>) -> int {
    choose|i: int| entry_at(es, i, address)
}

/// Whether no two entries share an address.
spec fn entries_distinct(es: Seq<Entry>) -> bool {
    forall|i: int, j: int|
        0 <= i < j < es.len() ==> es[i].account.address@ != es[j].account.address@
}

/// The accounts that the entries hold, by address.
spec fn accounts_of(es: Seq<Entry>) -> Map<Seq<char>, AccountView> {
    Map::new(|a: Seq<char>| has_entry(es, a), |a: Seq<char>| es[entry_index(es, a)].account@)
}

/// The tags that the entries hold, by address.
spec fn origins_of(es: Seq<Entry>) -> Map<Seq<char>, u32> {
    Map::new(|a: Seq<char>| has_entry(es, a), |a: Seq<char>| es[entry_index(es, a)].origin)
}

/// Whether the row at index `i` is the one with key `k`.
spec fn row_at(rs: Seq<Row>, i: int, k: (Seq<char>, i64)) -> bool {
    0 <= i < rs.len() && rs[i].row.address@ == k.0 && rs[i].row.sequence == k.1
}

/// Whether some row has key `k`.
spec fn has_row(rs: Seq<Row>, k: (Seq<char>, i64)) -> bool {
    exists|i: int| row_at(rs, i, k)
}

/// The index of the row with key `k`.
spec fn row_index(rs: Seq<Row>, k: (Seq<char>, i64)) -> int {
    choose|i: int| row_at(rs, i, k)
}

/// Whether no two rows share a key.
spec fn rows_distinct(rs: Seq<Row>) -> bool {
    forall|i: int, j: int|
        0 <= i < j < rs.len() ==> !(rs[i].row.address@ == rs[j].row.address@ && rs[i].row.sequence
            == rs[j].row.sequence)
}

/// What a filed row says.
spec fn row_view(r: Row) -> RowView {
    RowView { hash: r.row.hash@, parent: opt_view(r.parent) }
}

/// The observations that the rows hold, by address and sequence.
spec fn unstable_of(rs: Seq<Row>) -> Map<(Seq<char>, i64), RowView> {
    Map::new(
        |k: (Seq<char>, i64)| has_row(rs, k),
        |k: (Seq<char>, i64)| row_view(rs[row_index(rs, k)]),
    )
}

/// With distinct addresses, the entry found for an address is the only one.
proof fn lemma_entry_found(es: Seq<Entry>, i: int)
    requires
        entries_distinct(es),
        0 <= i < es.len(),
    ensures
        has_entry(es, es[i].account.address@),
        entry_index(es, es[i].account.address@) == i,
        accounts_of(es).contains_key(es[i].account.address@),
        accounts_of(es)[es[i].account.address@] == es[i].account@,
        origins_of(es)[es[i].account.address@] == es[i].origin,
{
    let a = es[i].account.address@;
    assert(entry_at(es, i, a));
    let j = entry_index(es, a);
    assert(entry_at(es, j, a));
    if j < i {
        assert(es[j].account.address@ != es[i].account.address@);
    } else if i < j {
        assert(es[i].account.address@ != es[j].account.address@);
    }
}

/// With distinct keys, the row found for a key is the only one.
proof fn lemma_row_found(rs: Seq<Row>, i: int)
    requires
        rows_distinct(rs),
        0 <= i < rs.len(),
    ensures
        has_row(rs, (rs[i].row.address@, rs[i].row.sequence)),
        row_index(rs, (rs[i].row.address@, rs[i].row.sequence)) == i,
        unstable_of(rs).contains_key((rs[i].row.address@, rs[i].row.sequence)),
        unstable_of(rs)[(rs[i].row.address@, rs[i].row.sequence)] == row_view(rs[i]),
{
    let k = (rs[i].row.address@, rs[i].row.sequence);
    assert(row_at(rs, i, k));
    let j = row_index(rs, k);
    assert(row_at(rs, j, k));
    if j < i {
        assert(!(rs[j].row.address@ == rs[i].row.address@ && rs[j].row.sequence
            == rs[i].row.sequence));
    } else if i < j {
        assert(!(rs[i].row.address@ == rs[j].row.address@ && rs[i].row.sequence
            == rs[j].row.sequence));
    }
}

/// A new entry adds its account and its tag, and nothing else changes.
proof fn lemma_entry_pushed(es: Seq<Entry>, e: Entry)
    requires
        entries_distinct(es),
        !has_entry(es, e.account.address@),
    ensures
        entries_distinct(es.push(e)),
        accounts_of(es.push(e)) =~= accounts_of(es).insert(e.account.address@, e.account@),
        origins_of(es.push(e)) =~= origins_of(es).insert(e.account.address@, e.origin),
{
    let ns = es.push(e);
    let n = es.len() as int;
    assert forall|i: int, j: int| 0 <= i < j < ns.len() implies ns[i].account.address@
        != ns[j].account.address@ by {
        if j == n {
            assert(!entry_at(es, i, e.account.address@));
        }
    }
    assert forall|a: Seq<char>| has_entry(ns, a) <==> (a == e.account.address@ || has_entry(
        es,
        a,
    )) by {
        if has_entry(ns, a) {
            let i = entry_index(ns, a);
            if i < n {
                assert(entry_at(es, i, a));
            }
        }
        if a == e.account.address@ {
            assert(entry_at(ns, n, a));
        }
        if has_entry(es, a) {
            let i = entry_index(es, a);
            assert(entry_at(ns, i, a));
        }
    }
    assert forall|a: Seq<char>| has_entry(ns, a) implies ns[entry_index(ns, a)].account@ == (if a
        == e.account.address@ {
        e.account@
    } else {
        es[entry_index(es, a)].account@
    }) && ns[entry_index(ns, a)].origin == (if a == e.account.address@ {
        e.origin
    } else {
        es[entry_index(es, a)].origin
    }) by {
        let i = entry_index(ns, a);
        lemma_entry_found(ns, i);
        if a == e.account.address@ {
            lemma_entry_found(ns, n);
        } else {
            assert(entry_at(es, i, a));
            lemma_entry_found(es, i);
        }
    }
}

/// An entry replaced by one of the same address changes its account and its
/// tag, and nothing else.
proof fn lemma_entry_updated(es: Seq<Entry>, i: int, e: Entry)
    requires
        entries_distinct(es),
        0 <= i < es.len(),
        e.account.address@ == es[i].account.address@,
    ensures
        entries_distinct(es.update(i, e)),
        accounts_of(es.update(i, e)) =~= accounts_of(es).insert(e.account.address@, e.account@),
        origins_of(es.update(i, e)) =~= origins_of(es).insert(e.account.address@, e.origin),
{
    let ns = es.update(i, e);
    assert forall|x: int, y: int| 0 <= x < y < ns.len() implies ns[x].account.address@
        != ns[y].account.address@ by {
        assert(es[x].account.address@ != es[y].account.address@);
    }
    assert forall|a: Seq<char>| has_entry(ns, a) <==> has_entry(es, a) by {
        if has_entry(ns, a) {
            let j = entry_index(ns, a);
            assert(entry_at(es, j, a));
        }
        if has_entry(es, a) {
            let j = entry_index(es, a);
            assert(entry_at(ns, j, a));
        }
    }
    lemma_entry_found(es, i);
    assert forall|a: Seq<char>| has_entry(ns, a) implies ns[entry_index(ns, a)].account@ == (if a
        == e.account.address@ {
        e.account@
    } else {
        es[entry_index(es, a)].account@
    }) && ns[entry_index(ns, a)].origin == (if a == e.account.address@ {
        e.origin
    } else {
        es[entry_index(es, a)].origin
    }) by {
        let j = entry_index(ns, a);
        lemma_entry_found(ns, j);
        assert(entry_at(es, j, a));
        lemma_entry_found(es, j);
    }
}

/// An entry taken out takes its account and its tag with it, and nothing
/// else changes.
proof fn lemma_entry_removed(es: Seq<Entry>, i: int)
    requires
        entries_distinct(es),
        0 <= i < es.len(),
    ensures
        entries_distinct(es.remove(i)),
        accounts_of(es.remove(i)) =~= accounts_of(es).remove(es[i].account.address@),
        origins_of(es.remove(i)) =~= origins_of(es).remove(es[i].account.address@),
{
    let ns = es.remove(i);
    let gone = es[i].account.address@;
    assert forall|x: int, y: int| 0 <= x < y < ns.len() implies ns[x].account.address@
        != ns[y].account.address@ by {
        let ox = if x < i { x } else { x + 1 };
        let oy = if y < i { y } else { y + 1 };
        assert(es[ox].account.address@ != es[oy].account.address@);
    }
    assert forall|a: Seq<char>| has_entry(ns, a) <==> (has_entry(es, a) && a != gone) by {
        if has_entry(ns, a) {
            let j = entry_index(ns, a);
            let oj = if j < i { j } else { j + 1 };
            assert(entry_at(es, oj, a));
            lemma_entry_found(es, oj);
            lemma_entry_found(es, i);
        }
        if has_entry(es, a) && a != gone {
            let oj = entry_index(es, a);
            let j = if oj < i { oj } else { oj - 1 };
            assert(entry_at(ns, j, a));
        }
    }
    assert forall|a: Seq<char>| has_entry(ns, a) implies ns[entry_index(ns, a)].account@
        == es[entry_index(es, a)].account@ && ns[entry_index(ns, a)].origin == es[entry_index(
        es,
        a,
    )].origin by {
        let j = entry_index(ns, a);
        let oj = if j < i { j } else { j + 1 };
        assert(entry_at(es, oj, a));
        lemma_entry_found(es, oj);
    }
}

/// A row with a new key adds its observation, and nothing else changes.
proof fn lemma_row_pushed(rs: Seq<Row>, r: Row)
    requires
        rows_distinct(rs),
        !has_row(rs, (r.row.address@, r.row.sequence)),
    ensures
        rows_distinct(rs.push(r)),
        unstable_of(rs.push(r)) =~= unstable_of(rs).insert(
            (r.row.address@, r.row.sequence),
            row_view(r),
        ),
{
    let ns = rs.push(r);
    let n = rs.len() as int;
    let key = (r.row.address@, r.row.sequence);
    assert forall|i: int, j: int| 0 <= i < j < ns.len() implies !(ns[i].row.address@
        == ns[j].row.address@ && ns[i].row.sequence == ns[j].row.sequence) by {
        if j == n {
            assert(!row_at(rs, i, key));
        }
    }
    assert forall|k: (Seq<char>, i64)| has_row(ns, k) <==> (k == key || has_row(rs, k)) by {
        if has_row(ns, k) {
            let i = row_index(ns, k);
            if i < n {
                assert(row_at(rs, i, k));
            }
        }
        if k == key {
            assert(row_at(ns, n, k));
        }
        if has_row(rs, k) {
            let i = row_index(rs, k);
            assert(row_at(ns, i, k));
        }
    }
    assert forall|k: (Seq<char>, i64)| has_row(ns, k) implies row_view(ns[row_index(ns, k)]) == (
    if k == key {
        row_view(r)
    } else {
        row_view(rs[row_index(rs, k)])
    }) by {
        let i = row_index(ns, k);
        lemma_row_found(ns, i);
        if k == key {
            lemma_row_found(ns, n);
        } else {
            assert(row_at(rs, i, k));
            lemma_row_found(rs, i);
        }
    }
}

/// A row replaced by one of the same key changes its observation, and
/// nothing else.
proof fn lemma_row_updated(rs: Seq<Row>, i: int, r: Row)
    requires
        rows_distinct(rs),
        0 <= i < rs.len(),
        r.row.address@ == rs[i].row.address@,
        r.row.sequence == rs[i].row.sequence,
    ensures
        rows_distinct(rs.update(i, r)),
        unstable_of(rs.update(i, r)) =~= unstable_of(rs).insert(
            (r.row.address@, r.row.sequence),
            row_view(r),
        ),
{
    let ns = rs.update(i, r);
    let key = (r.row.address@, r.row.sequence);
    assert forall|x: int, y: int| 0 <= x < y < ns.len() implies !(ns[x].row.address@
        == ns[y].row.address@ && ns[x].row.sequence == ns[y].row.sequence) by {
        assert(!(rs[x].row.address@ == rs[y].row.address@ && rs[x].row.sequence
            == rs[y].row.sequence));
    }
    assert forall|k: (Seq<char>, i64)| has_row(ns, k) <==> has_row(rs, k) by {
        if has_row(ns, k) {
            let j = row_index(ns, k);
            assert(row_at(rs, j, k));
        }
        if has_row(rs, k) {
            let j = row_index(rs, k);
            assert(row_at(ns, j, k));
        }
    }
    lemma_row_found(rs, i);
    assert forall|k: (Seq<char>, i64)| has_row(ns, k) implies row_view(ns[row_index(ns, k)]) == (
    if k == key {
        row_view(r)
    } else {
        row_view(rs[row_index(rs, k)])
    }) by {
        let j = row_index(ns, k);
        lemma_row_found(ns, j);
        assert(row_at(rs, j, k));
        lemma_row_found(rs, j);
    }
}

/// A row taken out takes its observation with it, and nothing else changes.
proof fn lemma_row_removed(rs: Seq<Row>, i: int)
    requires
        rows_distinct(rs),
        0 <= i < rs.len(),
    ensures
        rows_distinct(rs.remove(i)),
        unstable_of(rs.remove(i)) =~= unstable_of(rs).remove(
            (rs[i].row.address@, rs[i].row.sequence),
        ),
{
    let ns = rs.remove(i);
    let gone = (rs[i].row.address@, rs[i].row.sequence);
    assert forall|x: int, y: int| 0 <= x < y < ns.len() implies !(ns[x].row.address@
        == ns[y].row.address@ && ns[x].row.sequence == ns[y].row.sequence) by {
        let ox = if x < i { x } else { x + 1 };
        let oy = if y < i { y } else { y + 1 };
        assert(!(rs[ox].row.address@ == rs[oy].row.address@ && rs[ox].row.sequence
            == rs[oy].row.sequence));
    }
    assert forall|k: (Seq<char>, i64)| has_row(ns, k) <==> (has_row(rs, k) && k != gone) by {
        if has_row(ns, k) {
            let j = row_index(ns, k);
            let oj = if j < i { j } else { j + 1 };
            assert(row_at(rs, oj, k));
            lemma_row_found(rs, oj);
            lemma_row_found(rs, i);
        }
        if has_row(rs, k) && k != gone {
            let oj = row_index(rs, k);
            let j = if oj < i { oj } else { oj - 1 };
            assert(row_at(ns, j, k));
        }
    }
    assert forall|k: (Seq<char>, i64)| has_row(ns, k) implies row_view(ns[row_index(ns, k)])
        == row_view(rs[row_index(rs, k)]) by {
        let j = row_index(ns, k);
        let oj = if j < i { j } else { j + 1 };
        assert(row_at(rs, oj, k));
        lemma_row_found(rs, oj);
    }
}

/// Whether the row is one of `address` that a discard up to `bound` takes.
fn taken(r: &Row, address: &str, bound: Option<i64>) -> (t: bool)
    ensures
        t == (r.row.address@ == address@ && discards(bound, r.row.sequence)),
{
    let within = match bound {
        None => true,
        Some(h) => r.row.sequence <= h,
    };
    within && same(r.row.address.as_str(), address)
}

/// Discards the rows of `address` up to `bound`.
fn discard_rows(rows: &mut Vec<Row>, address: &str, bound: Option<i64>)
    requires
        rows_distinct(old(rows)@),
    ensures
        rows_distinct(final(rows)@),
        unstable_of(final(rows)@) =~= rows_without(unstable_of(old(rows)@), address@, bound),
{
    let ghost before = unstable_of(rows@);
    let mut i: usize = 0;
    while i < rows.len()
        invariant
            i <= rows@.len(),
            rows_distinct(rows@),
            before == unstable_of(old(rows)@),
            forall|j: int|
                0 <= j < i ==> !(#[trigger] rows@[j].row.address@ == address@ && discards(
                    bound,
                    rows@[j].row.sequence,
                )),
            forall|k: (Seq<char>, i64)| #[trigger]
                unstable_of(rows@).contains_key(k) ==> before.contains_key(k) && before[k]
                    == unstable_of(rows@)[k],
            forall|k: (Seq<char>, i64)|
                before.contains_key(k) && !(k.0 == address@ && discards(bound, k.1))
                    ==> #[trigger] unstable_of(rows@).contains_key(k),
        decreases rows@.len() - i,
    {
        if taken(&rows[i], address, bound) {
            proof {
                lemma_row_removed(rows@, i as int);
            }
            rows.remove(i);
        } else {
            i += 1;
        }
    }
    proof {
        assert forall|k: (Seq<char>, i64)| #[trigger]
            unstable_of(rows@).contains_key(k) implies !(k.0 == address@ && discards(
            bound,
            k.1,
        )) by {
            let j = row_index(rows@, k);
            assert(row_at(rows@, j, k));
        }
    }
}

impl View for Ledger {
    type V = LedgerView;

    closed spec fn view(&self) -> LedgerView {
        LedgerView {
            accounts: accounts_of(self.entries@),
            origins: origins_of(self.entries@),
            unstable: unstable_of(self.rows@),
        }
    }
}

impl Ledger {
    /// Whether the ledger is in order: no address is filed twice, no
    /// observation is filed twice, and what it holds is well-formed.
    pub closed spec fn inv(&self) -> bool {
        &&& entries_distinct(self.entries@)
        &&& rows_distinct(self.rows@)
        &&& self@.wf()
    }

    /// A ledger in order holds well-formed contents.
    pub proof fn lemma_inv(&self)
        requires
            self.inv(),
        ensures
            self@.wf(),
    {
    }

    /// A ledger that holds nothing.
    pub fn new() -> (r: Ledger)
        ensures
            r.inv(),
            r@ == LedgerView::empty(),
    {
        let r = Ledger { entries: Vec::new(), rows: Vec::new() };
        proof {
            assert(r@.accounts =~= Map::empty());
            assert(r@.origins =~= Map::empty());
            assert(r@.unstable =~= Map::empty());
        }
        r
    }

    /// The index of the entry of `address`.
    fn find(&self, address: &str) -> (r: Option<usize>)
        requires
            self.inv(),
        ensures
            match r {
                Some(i) => entry_at(self.entries@, i as int, address@) && self@.has(address@)
                    && self@.accounts[address@] == self.entries@[i as int].account@
                    && self@.origins[address@] == self.entries@[i as int].origin,
                None => !self@.has(address@),
            },
    {
        let mut i: usize = 0;
        while i < self.entries.len()
            invariant
                self.inv(),
                i <= self.entries@.len(),
                forall|j: int| 0 <= j < i ==> !entry_at(self.entries@, j, address@),
            decreases self.entries@.len() - i,
        {
            if same(self.entries[i].account.address.as_str(), address) {
                proof {
                    lemma_entry_found(self.entries@, i as int);
                }
                return Some(i);
            }
            i += 1;
        }
        None
    }

    /// The index of the row of `address` at `sequence`.
    fn find_row(&self, address: &str, sequence: i64) -> (r: Option<usize>)
        requires
            self.inv(),
        ensures
            match r {
                Some(i) => row_at(self.rows@, i as int, (address@, sequence)) && self@.has_row(
                    address@,
                    sequence,
                ) && self@.unstable[(address@, sequence)] == row_view(self.rows@[i as int]),
                None => !self@.has_row(address@, sequence),
            },
    {
        let mut i: usize = 0;
        while i < self.rows.len()
            invariant
                self.inv(),
                i <= self.rows@.len(),
                forall|j: int| 0 <= j < i ==> !row_at(self.rows@, j, (address@, sequence)),
            decreases self.rows@.len() - i,
        {
            if self.rows[i].row.sequence == sequence && same(
                self.rows[i].row.address.as_str(),
                address,
            ) {
                proof {
                    lemma_row_found(self.rows@, i as int);
                }
                return Some(i);
            }
            i += 1;
        }
        None
    }

    /// The account at `address`.
    pub fn get(&self, address: &str) -> (r: Result<Account, OreoError>)
        requires
            self.inv(),
        ensures
            match r {
                Ok(account) => self@.has(address@) && account@ == self@.accounts[address@],
                Err(e) => e == OreoError::NotFound && !self@.has(address@),
            },
    {
        match self.find(address) {
            Some(i) => Ok(self.entries[i].account.clone()),
            None => Err(OreoError::NotFound),
        }
    }

    /// The tag under which the account at `address` was saved.
    pub fn origin(&self, address: &str) -> (r: Result<u32, OreoError>)
        requires
            self.inv(),
        ensures
            match r {
                Ok(tag) => self@.has(address@) && tag == self@.origins[address@],
                Err(e) => e == OreoError::NotFound && !self@.has(address@),
            },
    {
        match self.find(address) {
            Some(i) => Ok(self.entries[i].origin),
            None => Err(OreoError::NotFound),
        }
    }

    /// Files a new account under `origin_tag` and returns its name. An
    /// address that is held already is a conflict, and nothing changes.
    pub fn save(&mut self, account: Account, origin_tag: u32) -> (r: Result<String, OreoError>)
        requires
            old(self).inv(),
        ensures
            final(self).inv(),
            match r {
                Ok(name) => !old(self)@.has(account.address@) && final(self)@ == old(self)@.saved(
                    account@,
                    origin_tag,
                ) && name@ == account.name@,
                Err(e) => e == OreoError::Conflict && old(self)@.has(account.address@)
                    && final(self)@ == old(self)@,
            },
    {
        match self.find(account.address.as_str()) {
            Some(_) => Err(OreoError::Conflict),
            None => {
                let name = account.name.clone();
                let entry = Entry { account: account, origin: origin_tag };
                proof {
                    lemma_entry_pushed(self.entries@, entry);
                }
                self.entries.push(entry);
                proof {
                    assert(self@ =~= old(self)@.saved(account@, origin_tag));
                }
                Ok(name)
            },
        }
    }

    /// Sets the stable checkpoint of `address` to `(new_head, new_hash)`,
    /// discards its observations at or below `new_head`, and returns the
    /// address. Whether the new checkpoint continues the old one is for the
    /// caller to know.
    pub fn advance_head(&mut self, address: &str, new_head: i64, new_hash: String) -> (r: Result<
        String,
        OreoError,
    >)
        requires
            old(self).inv(),
        ensures
            final(self).inv(),
            match r {
                Ok(a) => old(self)@.has(address@) && a@ == address@ && final(self)@ == old(self)@.advanced(address@, new_head, new_hash@),
                Err(e) => e == OreoError::NotFound && !old(self)@.has(address@) && final(self)@
                    == old(self)@,
            },
    {
        match self.find(address) {
            None => Err(OreoError::NotFound),
            Some(i) => {
                let found = self.entries[i].account.address.clone();
                self.entries[i].account.head = new_head;
                self.entries[i].account.hash = new_hash;
                proof {
                    lemma_entry_updated(old(self).entries@, i as int, self.entries@[i as int]);
                    assert(self.entries@ =~= old(self).entries@.update(
                        i as int,
                        self.entries@[i as int],
                    ));
                }
                discard_rows(&mut self.rows, address, Some(new_head));
                proof {
                    assert(self@ =~= old(self)@.advanced(address@, new_head, new_hash@));
                }
                Ok(found)
            },
        }
    }

    /// Takes the account at `address` out of the ledger, with all its
    /// observations, and returns the address.
    pub fn remove(&mut self, address: &str) -> (r: Result<String, OreoError>)
        requires
            old(self).inv(),
        ensures
            final(self).inv(),
            match r {
                Ok(a) => old(self)@.has(address@) && a@ == address@ && final(self)@ == old(self)@.removed(address@),
                Err(e) => e == OreoError::NotFound && !old(self)@.has(address@) && final(self)@
                    == old(self)@,
            },
    {
        match self.find(address) {
            None => Err(OreoError::NotFound),
            Some(i) => {
                proof {
                    lemma_entry_removed(self.entries@, i as int);
                }
                let entry = self.entries.remove(i);
                discard_rows(&mut self.rows, address, None);
                proof {
                    assert(self@ =~= old(self)@.removed(address@));
                }
                Ok(entry.account.address)
            },
        }
    }

    /// Sets the origin bound of `address` to `(new_head, new_hash)` and
    /// returns the address.
    pub fn set_created(&mut self, address: &str, new_head: i64, new_hash: String) -> (r: Result<
        String,
        OreoError,
    >)
        requires
            old(self).inv(),
        ensures
            final(self).inv(),
            match r {
                Ok(a) => old(self)@.has(address@) && a@ == address@ && final(self)@ == old(self)@.created(address@, new_head, new_hash@),
                Err(e) => e == OreoError::NotFound && !old(self)@.has(address@) && final(self)@
                    == old(self)@,
            },
    {
        match self.find(address) {
            None => Err(OreoError::NotFound),
            Some(i) => {
                let found = self.entries[i].account.address.clone();
                self.entries[i].account.create_head = Some(new_head);
                self.entries[i].account.create_hash = Some(new_hash);
                proof {
                    lemma_entry_updated(old(self).entries@, i as int, self.entries@[i as int]);
                    assert(self.entries@ =~= old(self).entries@.update(
                        i as int,
                        self.entries@[i as int],
                    ));
                    assert(self@ =~= old(self)@.created(address@, new_head, new_hash@));
                }
                Ok(found)
            },
        }
    }

    /// Sets the rescan flag of `address` to `flag` and returns the address.
    pub fn set_need_scan(&mut self, address: &str, flag: bool) -> (r: Result<String, OreoError>)
        requires
            old(self).inv(),
        ensures
            final(self).inv(),
            match r {
                Ok(a) => old(self)@.has(address@) && a@ == address@ && final(self)@ == old(self)@.flagged(address@, flag),
                Err(e) => e == OreoError::NotFound && !old(self)@.has(address@) && final(self)@
                    == old(self)@,
            },
    {
        match self.find(address) {
            None => Err(OreoError::NotFound),
            Some(i) => {
                let found = self.entries[i].account.address.clone();
                self.entries[i].account.need_scan = flag;
                proof {
                    lemma_entry_updated(old(self).entries@, i as int, self.entries@[i as int]);
                    assert(self.entries@ =~= old(self).entries@.update(
                        i as int,
                        self.entries@[i as int],
                    ));
                    assert(self@ =~= old(self)@.flagged(address@, flag));
                }
                Ok(found)
            },
        }
    }

    /// Sets the account at `address` back to `(head, hash)`, flags it for a
    /// rescan, discards all its observations, and returns the address.
    pub fn rewind(&mut self, address: &str, head: i64, hash: String) -> (r: Result<
        String,
        OreoError,
    >)
        requires
            old(self).inv(),
        ensures
            final(self).inv(),
            match r {
                Ok(a) => old(self)@.has(address@) && a@ == address@ && final(self)@ == old(self)@.rewound(address@, head, hash@),
                Err(e) => e == OreoError::NotFound && !old(self)@.has(address@) && final(self)@
                    == old(self)@,
            },
    {
        match self.find(address) {
            None => Err(OreoError::NotFound),
            Some(i) => {
                let found = self.entries[i].account.address.clone();
                self.entries[i].account.head = head;
                self.entries[i].account.hash = hash;
                self.entries[i].account.need_scan = true;
                proof {
                    lemma_entry_updated(old(self).entries@, i as int, self.entries@[i as int]);
                    assert(self.entries@ =~= old(self).entries@.update(
                        i as int,
                        self.entries@[i as int],
                    ));
                }
                discard_rows(&mut self.rows, address, None);
                proof {
                    assert(self@ =~= old(self)@.rewound(address@, head, hash@));
                }
                Ok(found)
            },
        }
    }

    /// The observation held for `address` at `sequence`.
    pub fn get_unstable(&self, address: &str, sequence: i64) -> (r: Result<
        UnstableAccount,
        OreoError,
    >)
        requires
            self.inv(),
        ensures
            match r {
                Ok(row) => self@.has_row(address@, sequence) && row@ == (UnstableView {
                    address: address@,
                    sequence: sequence,
                    hash: self@.unstable[(address@, sequence)].hash,
                }),
                Err(e) => e == OreoError::NotFound && !self@.has_row(address@, sequence),
            },
    {
        match self.find_row(address, sequence) {
            Some(i) => Ok(self.rows[i].row.clone()),
            None => Err(OreoError::NotFound),
        }
    }

    /// The parent hash that the observation for `address` at `sequence` came
    /// with, if it came with one.
    pub fn unstable_parent(&self, address: &str, sequence: i64) -> (r: Result<
        Option<String>,
        OreoError,
    >)
        requires
            self.inv(),
        ensures
            match r {
                Ok(parent) => self@.has_row(address@, sequence) && opt_view(parent)
                    == self@.unstable[(address@, sequence)].parent,
                Err(e) => e == OreoError::NotFound && !self@.has_row(address@, sequence),
            },
    {
        match self.find_row(address, sequence) {
            Some(i) => Ok(clone_opt(&self.rows[i].parent)),
            None => Err(OreoError::NotFound),
        }
    }

    /// Files `row` with the parent hash it came with, in place of the
    /// observation held at its address and sequence, if any.
    fn file(&mut self, row: UnstableAccount, parent: Option<String>) -> (r: Result<
        String,
        OreoError,
    >)
        requires
            old(self).inv(),
        ensures
            final(self).inv(),
            match r {
                Ok(a) => old(self)@.has(row.address@) && row.sequence > old(self)@.accounts[row.address@].head && a@ == row.address@ && final(self)@ == old(self)@.observed(
                    row.address@,
                    row.sequence,
                    RowView { hash: row.hash@, parent: opt_view(parent) },
                ),
                Err(e) => final(self)@ == old(self)@ && if old(self)@.has(row.address@) {
                    e == OreoError::Invalid && row.sequence <= old(self)@.accounts[row.address@].head
                } else {
                    e == OreoError::NotFound
                },
            },
    {
        match self.find(row.address.as_str()) {
            None => Err(OreoError::NotFound),
            Some(i) => {
                if row.sequence <= self.entries[i].account.head {
                    return Err(OreoError::Invalid);
                }
                let found = row.address.clone();
                let filed = Row { row: row, parent: parent };
                match self.find_row(found.as_str(), filed.row.sequence) {
                    Some(j) => {
                        proof {
                            lemma_row_updated(self.rows@, j as int, filed);
                        }
                        self.rows[j] = filed;
                        proof {
                            assert(self.rows@ =~= old(self).rows@.update(j as int, filed));
                        }
                    },
                    None => {
                        proof {
                            lemma_row_pushed(self.rows@, filed);
                        }
                        self.rows.push(filed);
                    },
                }
                proof {
                    assert(self@ =~= old(self)@.observed(
                        row.address@,
                        row.sequence,
                        RowView { hash: row.hash@, parent: opt_view(parent) },
                    ));
                }
                Ok(found)
            },
        }
    }

    /// Files `row` as an observation whose parent is not known, in place of
    /// the one held at its address and sequence, if any, and returns the
    /// address. The account has to be held, and the sequence above its head.
    pub fn put_unstable(&mut self, row: UnstableAccount) -> (r: Result<String, OreoError>)
        requires
            old(self).inv(),
        ensures
            final(self).inv(),
            match r {
                Ok(a) => old(self)@.has(row.address@) && row.sequence > old(self)@.accounts[row.address@].head && a@ == row.address@ && final(self)@ == old(self)@.observed(
                    row.address@,
                    row.sequence,
                    RowView { hash: row.hash@, parent: None },
                ),
                Err(e) => final(self)@ == old(self)@ && if old(self)@.has(row.address@) {
                    e == OreoError::Invalid && row.sequence <= old(self)@.accounts[row.address@].head
                } else {
                    e == OreoError::NotFound
                },
            },
    {
        self.file(row, None)
    }

    /// Files `row` as an observation that came with the hash of the block
    /// before it, in place of the one held at its address and sequence, if
    /// any, and returns the address. The account has to be held, and the
    /// sequence above its head.
    pub fn put_linked(&mut self, row: UnstableAccount, parent_hash: String) -> (r: Result<
        String,
        OreoError,
    >)
        requires
            old(self).inv(),
        ensures
            final(self).inv(),
            match r {
                Ok(a) => old(self)@.has(row.address@) && row.sequence > old(self)@.accounts[row.address@].head && a@ == row.address@ && final(self)@ == old(self)@.observed(
                    row.address@,
                    row.sequence,
                    RowView { hash: row.hash@, parent: Some(parent_hash@) },
                ),
                Err(e) => final(self)@ == old(self)@ && if old(self)@.has(row.address@) {
                    e == OreoError::Invalid && row.sequence <= old(self)@.accounts[row.address@].head
                } else {
                    e == OreoError::NotFound
                },
            },
    {
        self.file(row, Some(parent_hash))
    }

    /// Deletes the observation held for `address` at `sequence` and returns
    /// the address.
    pub fn delete_unstable(&mut self, address: &str, sequence: i64) -> (r: Result<
        String,
        OreoError,
    >)
        requires
            old(self).inv(),
        ensures
            final(self).inv(),
            match r {
                Ok(a) => old(self)@.has_row(address@, sequence) && a@ == address@ && final(self)@
                    == old(self)@.forgotten(address@, sequence),
                Err(e) => e == OreoError::NotFound && !old(self)@.has_row(address@, sequence)
                    && final(self)@ == old(self)@,
            },
    {
        match self.find_row(address, sequence) {
            None => Err(OreoError::NotFound),
            Some(i) => {
                proof {
                    lemma_row_removed(self.rows@, i as int);
                }
                let gone = self.rows.remove(i);
                proof {
                    assert(self@ =~= old(self)@.forgotten(address@, sequence));
                }
                Ok(gone.row.address)
            },
        }
    }

    /// The accounts that `filter` takes, in the order of service: ascending
    /// head, and ascending address among equal heads. With a limit, the
    /// first `limit` of them.
    pub fn select(&self, filter: Filter, limit: Option<usize>) -> (r: Vec<Account>)
        requires
            self.inv(),
        ensures
            is_selection(self@, filter, limit, account_views(r@)),
    {
        let mut out: Vec<Account> = Vec::new();
        let ghost mut src: Seq<int> = Seq::empty();
        let mut i: usize = 0;
        while i < self.entries.len()
            invariant
                self.inv(),
                i <= self.entries@.len(),
                src.len() == out@.len(),
                forall|j: int|
                    0 <= j < out@.len() ==> 0 <= #[trigger] src[j] < i && out@[j]@
                        == self.entries@[src[j]].account@ && filter.admits(out@[j]@),
                forall|j: int, k: int|
                    0 <= j < k < out@.len() ==> key_before(
                        (#[trigger] out@[j])@,
                        (#[trigger] out@[k])@,
                    ),
                forall|e: int|
                    0 <= e < i && filter.admits((#[trigger] self.entries@[e]).account@)
                        ==> exists|j: int| 0 <= j < src.len() && #[trigger] src[j] == e,
            decreases self.entries@.len() - i,
        {
            if filter.test(&self.entries[i].account) {
                let x = self.entries[i].account.clone();
                let mut p: usize = 0;
                while p < out.len() && served_before(&out[p], &x)
                    invariant
                        p <= out@.len(),
                        forall|j: int| 0 <= j < p ==> key_before((#[trigger] out@[j])@, x@),
                    decreases out@.len() - p,
                {
                    p += 1;
                }
                let ghost before = out@;
                let ghost before_src = src;
                proof {
                    before.insert_ensures(p as int, x);
                    before_src.insert_ensures(p as int, i as int);
                    assert forall|j: int| p <= j < before.len() implies key_before(
                        x@,
                        (#[trigger] before[j])@,
                    ) by {
                        assert(self.entries@[before_src[p as int]].account.address@
                            != self.entries@[i as int].account.address@);
                        lemma_key_total(before[p as int]@, x@);
                        if j > p {
                            lemma_key_transitive(x@, before[p as int]@, before[j]@);
                        }
                    }
                }
                out.insert(p, x);
                proof {
                    src = before_src.insert(p as int, i as int);
                    assert forall|j: int| 0 <= j < out@.len() implies 0 <= #[trigger] src[j] < i
                        + 1 && out@[j]@ == self.entries@[src[j]].account@ && filter.admits(
                        out@[j]@,
                    ) by {
                        if j < p {
                            assert(src[j] == before_src[j]);
                        } else if j > p {
                            assert(src[j] == before_src[j - 1]);
                            assert(out@[j] == before[j - 1]);
                        }
                    }
                    assert forall|j: int, k: int| 0 <= j < k < out@.len() implies key_before(
                        (#[trigger] out@[j])@,
                        (#[trigger] out@[k])@,
                    ) by {
                        let oj = if j < p { j } else { j - 1 };
                        let ok = if k < p { k } else { k - 1 };
                        if j != p {
                            assert(out@[j] == before[oj]);
                        }
                        if k != p {
                            assert(out@[k] == before[ok]);
                        }
                    }
                    assert forall|e: int|
                        0 <= e < i + 1 && filter.admits(
                            (#[trigger] self.entries@[e]).account@,
                        ) implies exists|j: int| 0 <= j < src.len() && #[trigger] src[j] == e by {
                        if e == i {
                            assert(src[p as int] == e);
                        } else {
                            let j = choose|j: int|
                                0 <= j < before_src.len() && #[trigger] before_src[j] == e;
                            if j < p {
                                assert(src[j] == e);
                            } else {
                                assert(src[j + 1] == before_src[j]);
                            }
                        }
                    }
                }
            }
            i += 1;
        }
        let ghost full = out@;
        if let Some(n) = limit {
            out.truncate(n);
        }
        proof {
            let r = account_views(out@);
            assert forall|j: int| 0 <= j < out@.len() implies out@[j] == full[j] by {}
            assert forall|j: int| 0 <= j < r.len() implies self@.accounts.contains_key(
                (#[trigger] r[j]).address,
            ) && self@.accounts[r[j].address] == r[j] && filter.admits(r[j]) by {
                assert(out@[j] == full[j]);
                lemma_entry_found(self.entries@, src[j]);
            }
            assert forall|j: int, k: int| 0 <= j < k < r.len() implies key_before(
                #[trigger] r[j],
                #[trigger] r[k],
            ) by {
                assert(key_before(full[j]@, full[k]@));
            }
            assert forall|a: Seq<char>| #[trigger]
                self@.accounts.contains_key(a) && filter.admits(
                    self@.accounts[a],
                ) implies lists(r, self@.accounts[a]) || (limit matches Some(n) && r.len() == n
                && forall|j: int| 0 <= j < r.len() ==> key_before(#[trigger] r[j], self@.accounts[a]))
            by {
                let e = entry_index(self.entries@, a);
                assert(entry_at(self.entries@, e, a));
                lemma_entry_found(self.entries@, e);
                assert(filter.admits(self.entries@[e].account@));
                let j = choose|j: int| 0 <= j < src.len() && #[trigger] src[j] == e;
                assert(full[j]@ == self@.accounts[a]);
                if j < out@.len() {
                    assert(r[j] == self@.accounts[a]);
                } else {
                    assert forall|m: int| 0 <= m < r.len() implies key_before(
                        #[trigger] r[m],
                        self@.accounts[a],
                    ) by {
                        assert(key_before(full[m]@, full[j]@));
                    }
                }
            }
        }
        out
    }

    /// The accounts in the order of service, least scanned first: ascending
    /// head, and ascending address among equal heads; at most `limit` of
    /// them.
    pub fn oldest(&self, limit: usize) -> (r: Vec<Account>)
        requires
            self.inv(),
        ensures
            is_selection(self@, Filter::All, Some(limit), account_views(r@)),
    {
        self.select(Filter::All, Some(limit))
    }

    /// All accounts whose head is at least `start_head`, in the order of
    /// service.
    pub fn with_head_at_least(&self, start_head: i64) -> (r: Vec<Account>)
        requires
            self.inv(),
        ensures
            is_selection(self@, Filter::HeadAtLeast(start_head), None, account_views(r@)),
    {
        self.select(Filter::HeadAtLeast(start_head), None)
    }
}

} // verus!
