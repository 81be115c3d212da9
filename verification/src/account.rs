use substring::Substring;
use vstd::prelude::*;

verus! {

/// The number of leading characters of an address that make up a name.
pub const NAME_LEN: usize = 10;

/// What an `Account` holds, as mathematical values.
pub struct AccountView {
    pub name: Seq<char>,
    pub create_head: Option<i64>,
    pub create_hash: Option<Seq<char>>,
    pub head: i64,
    pub hash: Seq<char>,
    pub in_vk: Seq<char>,
    pub out_vk: Seq<char>,
    pub vk: Seq<char>,
    pub address: Seq<char>,
    pub need_scan: bool,
}

/// One tracked wallet: its identity, its viewing keys, the stable checkpoint
/// `(head, hash)`, the origin bound below which no scan goes, and the sticky
/// request for a rescan.
#[derive(Debug, PartialEq, Eq)]
pub struct Account {
    pub name: String,
    pub create_head: Option<i64>,
    pub create_hash: Option<String>,
    pub head: i64,
    pub hash: String,
    pub in_vk: String,
    pub out_vk: String,
    pub vk: String,
    pub address: String,
    pub need_scan: bool,
}

/// The view of an optional string.
pub open spec fn opt_view(s: Option<String>) -> Option<Seq<char>> {
    match s {
        Some(x) => Some(x@),
        None => None,
    }
}

impl View for Account {
    type V = AccountView;

    open spec fn view(&self) -> AccountView {
        AccountView {
            name: self.name@,
            create_head: self.create_head,
            create_hash: opt_view(self.create_hash),
            head: self.head,
            hash: self.hash@,
            in_vk: self.in_vk@,
            out_vk: self.out_vk@,
            vk: self.vk@,
            address: self.address@,
            need_scan: self.need_scan,
        }
    }
}

/// A copy of an optional string.
pub fn clone_opt(s: &Option<String>) -> (r: Option<String>)
    ensures
        r == *s,
{
    match s {
        Some(x) => Some(x.clone()),
        None => None,
    }
}

impl Clone for Account {
    fn clone(&self) -> (r: Self)
        ensures
            r == *self,
    {
        Account {
            name: self.name.clone(),
            create_head: self.create_head,
            create_hash: clone_opt(&self.create_hash),
            head: self.head,
            hash: self.hash.clone(),
            in_vk: self.in_vk.clone(),
            out_vk: self.out_vk.clone(),
            vk: self.vk.clone(),
            address: self.address.clone(),
            need_scan: self.need_scan,
        }
    }
}

/// What an `UnstableAccount` holds, as mathematical values.
pub struct UnstableView {
    pub address: Seq<char>,
    pub sequence: i64,
    pub hash: Seq<char>,
}

/// A provisional observation: the block seen at `sequence` for the account at
/// `address`, held until the stable checkpoint passes it or a fork refutes it.
#[derive(Debug, PartialEq, Eq)]
pub struct UnstableAccount {
    pub address: String,
    pub sequence: i64,
    pub hash: String,
}

impl View for UnstableAccount {
    type V = UnstableView;

    open spec fn view(&self) -> UnstableView {
        UnstableView { address: self.address@, sequence: self.sequence, hash: self.hash@ }
    }
}

impl Clone for UnstableAccount {
    fn clone(&self) -> (r: Self)
        ensures
            r == *self,
    {
        UnstableAccount {
            address: self.address.clone(),
            sequence: self.sequence,
            hash: self.hash.clone(),
        }
    }
}

/// The name that belongs to an address: its first `NAME_LEN` characters, or
/// all of it where it is shorter.
pub open spec fn name_of(address: Seq<char>) -> Seq<char> {
    if address.len() <= NAME_LEN {
        address
    } else {
        address.subrange(0, NAME_LEN as int)
    }
}

/// What `substring` cuts out of `s`: the characters from index `start` up to,
/// not including, index `end`, both indices counted in characters and cut
/// down to the length of `s`; nothing where `end` is not behind `start`.
pub open spec fn char_range(s: Seq<char>, start: int, end: int) -> Seq<char> {
    if end <= start {
        Seq::empty()
    } else if start >= s.len() {
        Seq::empty()
    } else if end >= s.len() {
        s.subrange(start, s.len() as int)
    } else {
        s.subrange(start, end)
    }
}

/// `substring::Substring::substring` on a `str`. The contract claims that the
/// result holds the characters of `s` from `start_index` to `end_index`, with
/// both indices counted in characters and clamped to the end of `s`, and that
/// it is empty where `end_index <= start_index`.
#[verifier::external_body]
fn substring_of(s: &str, start_index: usize, end_index: usize) -> (r: String)
    ensures
        r@ == char_range(s@, start_index as int, end_index as int),
{
    s.substring(start_index, end_index).to_string()
}

/// The human-readable name of the account at `address`.
pub fn address_to_name(address: &str) -> (name: String)
    ensures
        name@ == name_of(address@),
        name@.len() <= NAME_LEN,
        name@.is_prefix_of(address@),
{
    let name = substring_of(address, 0, NAME_LEN);
    proof {
        assert(name@ =~= name_of(address@));
    }
    name
}

/// The account that an import creates for `address` with its viewing keys:
/// named after its address, created at `(head, hash)` and standing there,
/// with no rescan asked for.
pub open spec fn imported(
    address: Seq<char>,
    in_vk: Seq<char>,
    out_vk: Seq<char>,
    vk: Seq<char>,
    head: i64,
    hash: Seq<char>,
) -> AccountView {
    AccountView {
        name: name_of(address),
        create_head: Some(head),
        create_hash: Some(hash),
        head: head,
        hash: hash,
        in_vk: in_vk,
        out_vk: out_vk,
        vk: vk,
        address: address,
        need_scan: false,
    }
}

/// Whether the account has an origin bound.
pub open spec fn has_origin(account: AccountView) -> bool {
    account.create_head is Some && account.create_hash is Some
}

impl Account {
    /// The account that an import creates for `address` with its viewing
    /// keys, at the block `(head, hash)`.
    pub fn imported(
        address: String,
        in_vk: String,
        out_vk: String,
        vk: String,
        head: i64,
        hash: String,
    ) -> (r: Account)
        ensures
            r@ == imported(address@, in_vk@, out_vk@, vk@, head, hash@),
    {
        Account {
            name: address_to_name(address.as_str()),
            create_head: Some(head),
            create_hash: Some(hash.clone()),
            head: head,
            hash: hash,
            in_vk: in_vk,
            out_vk: out_vk,
            vk: vk,
            address: address,
            need_scan: false,
        }
    }

    /// The origin bound of the account, where it has one: the block it was
    /// created at, below which no scan goes.
    pub fn origin_bound(&self) -> (r: Option<(i64, String)>)
        ensures
            match r {
                Some((head, hash)) => has_origin(self@) && self@.create_head == Some(head)
                    && self@.create_hash == Some(hash@),
                None => !has_origin(self@),
            },
    {
        match (self.create_head, &self.create_hash) {
            (Some(head), Some(hash)) => Some((head, hash.clone())),
            _ => None,
        }
    }
}

} // verus!
