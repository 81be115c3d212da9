use crate::account::{has_origin, imported, name_of, Account, AccountView};
use crate::error::OreoError;
use crate::keys::SecpKey;
use crate::ledger::Ledger;
use crate::model::LedgerView;
use crate::node::{check_genesis, LatestBlock};
use crate::reconcile::{answer, applied, Outcome, Report};
use crate::rank::account_views;
use crate::scheduler::{candidates_of, is_candidate_list, Job};
use crate::session::{admits_report, given_view, is_dispatch, Coordinator, SessionView};
use crate::store::DBHandler;
use vstd::prelude::*;

verus! {

/// The ledger after the account at `address` was set back to its origin
/// bound, the first step of a full rescan. An account without an origin
/// bound stays where it stands.
pub open spec fn reset(v: LedgerView, address: Seq<char>) -> LedgerView {
    let account = v.accounts[address];
    if has_origin(account) {
        v.advanced(address, account.create_head->Some_0, account.create_hash->Some_0)
    } else {
        v
    }
}

/// The ledger after a full rescan was asked for the account at `address`:
/// the account stands at its origin bound again and is flagged for a rescan.
pub open spec fn rescanned(v: LedgerView, address: Seq<char>) -> LedgerView {
    reset(v, address).flagged(address, true)
}

/// What the service shares between its handlers: the store, the sessions of
/// the workers, the signature capability, and the genesis hash of the
/// network that the service was started on.
pub struct SharedState<T: DBHandler> {
    pub db_handler: T,
    pub scan_handler: Coordinator,
    pub secp: SecpKey,
    pub genesis_hash: String,
}

impl<T: DBHandler> SharedState<T> {
    /// Whether the store and the sessions are in order, and the sessions are
    /// checked against the capability of this state.
    pub open spec fn inv(&self) -> bool {
        &&& self.db_handler.in_order()
        &&& self.scan_handler.inv()
        &&& self.scan_handler.key() == self.secp
    }

    /// The state of a service that starts on `db_handler`, with no worker
    /// connected yet.
    pub fn new(db_handler: T, secp: SecpKey, genesis_hash: String) -> (r: SharedState<T>)
        requires
            db_handler.in_order(),
        ensures
            r.inv(),
            r.db_handler == db_handler,
            r.scan_handler@ == Seq::<SessionView>::empty(),
            r.secp == secp,
            r.genesis_hash == genesis_hash,
    {
        SharedState {
            db_handler: db_handler,
            scan_handler: Coordinator::new(secp.clone()),
            secp: secp,
            genesis_hash: genesis_hash,
        }
    }

    /// Checks what the node reports against the network that the service was
    /// started on: another genesis hash is fatal.
    pub fn check_network(&self, latest: &LatestBlock) -> (r: Result<(), OreoError>)
        ensures
            r == (if latest.genesis_block_identifier.hash@ == self.genesis_hash@ {
                Ok::<(), OreoError>(())
            } else {
                Err::<(), OreoError>(OreoError::Fatal)
            }),
    {
        check_genesis(self.genesis_hash.as_str(), latest)
    }

    /// Imports the account at `address` with its viewing keys. The account
    /// is created at the node's latest block, as `latest` gives it, and is
    /// saved under `origin_tag`; its name is returned. An address that is
    /// held already is a conflict; a store out of reach is unavailable.
    /// Either way nothing changes.
    pub fn import_account(
        &mut self,
        address: String,
        in_vk: String,
        out_vk: String,
        vk: String,
        latest: &LatestBlock,
        origin_tag: u32,
    ) -> (r: Result<String, OreoError>)
        requires
            old(self).inv(),
        ensures
            final(self).inv(),
            final(self).scan_handler == old(self).scan_handler,
            final(self).secp == old(self).secp,
            final(self).genesis_hash == old(self).genesis_hash,
            match r {
                Ok(name) => !old(self).db_handler.contents().has(address@) && name@ == name_of(
                    address@,
                ) && final(self).db_handler.contents() == old(self).db_handler.contents().saved(
                    imported(
                        address@,
                        in_vk@,
                        out_vk@,
                        vk@,
                        latest.current_block_identifier.index,
                        latest.current_block_identifier.hash@,
                    ),
                    origin_tag,
                ),
                Err(e) => final(self).db_handler.contents() == old(self).db_handler.contents()
                    && (e == OreoError::Unavailable || (e == OreoError::Conflict && old(self).db_handler.contents().has(address@))),
            },
    {
        let account = Account::imported(
            address,
            in_vk,
            out_vk,
            vk,
            latest.current_block_identifier.index,
            latest.current_block_identifier.hash.clone(),
        );
        self.db_handler.save_account(account, origin_tag)
    }

    /// Asks for a full rescan of the account at `address`: the account is
    /// set back to its origin bound, if it has one, and is then flagged for
    /// a rescan. The address is returned. The two steps are two operations
    /// of the store: where the store falls out of reach between them, the
    /// account is set back and not flagged, and the call is unavailable.
    pub fn rescan_account(&mut self, address: String) -> (r: Result<String, OreoError>)
        requires
            old(self).inv(),
        ensures
            final(self).inv(),
            final(self).scan_handler == old(self).scan_handler,
            final(self).secp == old(self).secp,
            final(self).genesis_hash == old(self).genesis_hash,
            match r {
                Ok(a) => old(self).db_handler.contents().has(address@) && a@ == address@
                    && final(self).db_handler.contents() == rescanned(
                    old(self).db_handler.contents(),
                    address@,
                ),
                Err(e) => if e == OreoError::Unavailable {
                    final(self).db_handler.contents() == old(self).db_handler.contents() || (old(self).db_handler.contents().has(address@) && final(self).db_handler.contents()
                        == reset(old(self).db_handler.contents(), address@))
                } else {
                    e == OreoError::NotFound && !old(self).db_handler.contents().has(address@)
                        && final(self).db_handler.contents() == old(self).db_handler.contents()
                },
            },
    {
        let account = match self.db_handler.get_account(address.clone()) {
            Ok(a) => a,
            Err(e) => {
                return Err(e);
            },
        };
        match account.origin_bound() {
            Some((head, hash)) => {
                match self.db_handler.update_account_head(address.clone(), head, hash) {
                    Ok(_) => {},
                    Err(e) => {
                        return Err(e);
                    },
                }
            },
            None => {},
        }
        match self.db_handler.update_scan_status(address, true) {
            Ok(a) => Ok(a),
            Err(e) => Err(e),
        }
    }

    /// Runs one round of scheduling: reads the candidates under `limit`
    /// from the store and gives the first of them that can be given out to
    /// the first free session. Returns the id of the session and the job,
    /// or none where nothing was given out. The store is only read; where
    /// it is out of reach, the round is unavailable and no session changes.
    pub fn schedule(&mut self, limit: usize, node_latest: i64) -> (r: Result<
        Option<(u64, Job)>,
        OreoError,
    >)
        requires
            old(self).inv(),
        ensures
            final(self).inv(),
            final(self).db_handler == old(self).db_handler,
            final(self).secp == old(self).secp,
            final(self).genesis_hash == old(self).genesis_hash,
            match r {
                Ok(given) => exists|list: Seq<AccountView>| #[trigger]
                    is_candidate_list(old(self).db_handler.contents(), limit, list)
                        && is_dispatch(
                        old(self).scan_handler@,
                        list,
                        node_latest,
                        given_view(given),
                        final(self).scan_handler@,
                    ),
                Err(e) => e == OreoError::Unavailable && final(self).scan_handler@ == old(self).scan_handler@,
            },
    {
        let list = match candidates_of(&self.db_handler, limit) {
            Ok(list) => list,
            Err(e) => {
                return Err(e);
            },
        };
        let given = self.scan_handler.dispatch(&list, node_latest);
        proof {
            assert(is_candidate_list(old(self).db_handler.contents(), limit, account_views(list@)));
        }
        Ok(given)
    }
}

impl SharedState<Ledger> {
    /// Takes a report from the session with the id `id` and reconciles it
    /// with the ledger. The session has to be awaited, and its job has to be
    /// for the report's address and cover its sequence: any other report is
    /// dropped as invalid, and the ledger stays as it is. No session
    /// changes.
    pub fn take_report(&mut self, id: u64, report: &Report) -> (r: Result<Outcome, OreoError>)
        requires
            old(self).inv(),
        ensures
            final(self).inv(),
            final(self).scan_handler == old(self).scan_handler,
            final(self).secp == old(self).secp,
            final(self).genesis_hash == old(self).genesis_hash,
            match admits_report(old(self).scan_handler@, id, report@) {
                Ok(()) => final(self).db_handler@ == applied(old(self).db_handler@, report@) && r
                    == answer(old(self).db_handler@, report@),
                Err(e) => final(self).db_handler@ == old(self).db_handler@ && r == Err::<
                    Outcome,
                    OreoError,
                >(e),
            },
    {
        self.scan_handler.receive(id, &mut self.db_handler, report)
    }
}

} // verus!
