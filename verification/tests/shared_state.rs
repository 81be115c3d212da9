use dservice::account::{Account, UnstableAccount};
use dservice::error::OreoError;
use dservice::keys::SecpKey;
use dservice::ledger::Ledger;
use dservice::node::{BlockIdentifier, LatestBlock};
use dservice::reconcile::{Outcome, Report};
use dservice::scheduler::Job;
use dservice::session::SessionState;
use dservice::state::SharedState;

fn latest(index: i64, hash: &str, genesis: &str) -> LatestBlock {
    LatestBlock {
        current_block_identifier: BlockIdentifier { index, hash: hash.to_string() },
        genesis_block_identifier: BlockIdentifier { index: 1, hash: genesis.to_string() },
    }
}

fn state() -> SharedState<Ledger> {
    SharedState::new(Ledger::new(), SecpKey { sk: [1u8; 32], pk: [2u8; 33] }, "G".to_string())
}

#[test]
fn new_state_keeps_what_it_was_given() {
    let s = state();
    assert_eq!(s.secp, SecpKey { sk: [1u8; 32], pk: [2u8; 33] });
    assert_eq!(s.genesis_hash, "G");
    assert_eq!(s.scan_handler.free_session(), None);
    assert!(s.db_handler.oldest(10).is_empty());
}

#[test]
fn sessions_are_checked_against_the_key_of_the_state() {
    let mut s = state();
    assert_eq!(s.scan_handler.connect(1, &[3u8; 33]), Err(OreoError::Invalid));
    assert_eq!(s.scan_handler.connect(1, &[2u8; 33]), Ok(()));
}

#[test]
fn network_with_another_genesis_hash_is_fatal() {
    let s = state();
    assert_eq!(s.check_network(&latest(9, "B9", "G")), Ok(()));
    assert_eq!(s.check_network(&latest(9, "B9", "H")), Err(OreoError::Fatal));
    assert_eq!(s.check_network(&latest(9, "G", "B9")), Err(OreoError::Fatal));
}

#[test]
fn import_creates_the_account_at_the_latest_block() {
    let mut s = state();
    let r = s.import_account(
        "0123456789abcdef".to_string(),
        "in".to_string(),
        "out".to_string(),
        "vk".to_string(),
        &latest(9, "B9", "G"),
        4,
    );
    assert_eq!(r, Ok("0123456789".to_string()));
    assert_eq!(
        s.db_handler.get("0123456789abcdef"),
        Ok(Account {
            name: "0123456789".to_string(),
            create_head: Some(9),
            create_hash: Some("B9".to_string()),
            head: 9,
            hash: "B9".to_string(),
            in_vk: "in".to_string(),
            out_vk: "out".to_string(),
            vk: "vk".to_string(),
            address: "0123456789abcdef".to_string(),
            need_scan: false,
        })
    );
    assert_eq!(s.db_handler.origin("0123456789abcdef"), Ok(4));
}

#[test]
fn import_of_a_held_address_is_a_conflict() {
    let mut s = state();
    let l = latest(9, "B9", "G");
    assert!(s
        .import_account("a".to_string(), "1".to_string(), "2".to_string(), "3".to_string(), &l, 0)
        .is_ok());
    let before = s.db_handler.get("a");
    let again = s.import_account(
        "a".to_string(),
        "x".to_string(),
        "y".to_string(),
        "z".to_string(),
        &latest(12, "B12", "G"),
        1,
    );
    assert_eq!(again, Err(OreoError::Conflict));
    assert_eq!(s.db_handler.get("a"), before);
}

#[test]
fn rescan_sets_the_account_back_to_its_origin() {
    let mut s = state();
    let l = latest(9, "B9", "G");
    assert!(s
        .import_account("a".to_string(), "1".to_string(), "2".to_string(), "3".to_string(), &l, 0)
        .is_ok());
    assert!(s.db_handler.advance_head("a", 15, "B15".to_string()).is_ok());
    let row = UnstableAccount { address: "a".to_string(), sequence: 17, hash: "B17".to_string() };
    assert!(s.db_handler.put_unstable(row).is_ok());
    assert!(s.db_handler.set_created("a", 12, "B12".to_string()).is_ok());
    let low = UnstableAccount { address: "a".to_string(), sequence: 16, hash: "B16".to_string() };
    assert!(s.db_handler.put_unstable(low).is_ok());
    assert!(s.db_handler.set_created("a", 16, "B16".to_string()).is_ok());
    assert_eq!(s.rescan_account("a".to_string()), Ok("a".to_string()));
    let a = s.db_handler.get("a").unwrap();
    assert_eq!((a.head, a.hash.as_str(), a.need_scan), (16, "B16", true));
    assert_eq!((a.create_head, a.create_hash), (Some(16), Some("B16".to_string())));
    assert_eq!(s.db_handler.get_unstable("a", 16), Err(OreoError::NotFound));
    assert!(s.db_handler.get_unstable("a", 17).is_ok());
    assert_eq!(s.rescan_account("b".to_string()), Err(OreoError::NotFound));
}

#[test]
fn rescan_without_an_origin_flags_the_account_where_it_stands() {
    let mut s = state();
    let a = Account {
        name: "a".to_string(),
        create_head: None,
        create_hash: Some("C".to_string()),
        head: 15,
        hash: "B15".to_string(),
        in_vk: "in".to_string(),
        out_vk: "out".to_string(),
        vk: "vk".to_string(),
        address: "a".to_string(),
        need_scan: false,
    };
    assert!(s.db_handler.save(a, 0).is_ok());
    let row = UnstableAccount { address: "a".to_string(), sequence: 17, hash: "B17".to_string() };
    assert!(s.db_handler.put_unstable(row).is_ok());
    assert_eq!(s.rescan_account("a".to_string()), Ok("a".to_string()));
    let a = s.db_handler.get("a").unwrap();
    assert_eq!((a.head, a.hash.as_str(), a.need_scan), (15, "B15", true));
    assert!(s.db_handler.get_unstable("a", 17).is_ok());
}

#[test]
fn rescan_at_the_origin_leaves_the_head_and_flags() {
    let mut s = state();
    let l = latest(9, "B9", "G");
    assert!(s
        .import_account("a".to_string(), "1".to_string(), "2".to_string(), "3".to_string(), &l, 0)
        .is_ok());
    assert!(s.db_handler.advance_head("a", 15, "B15".to_string()).is_ok());
    assert_eq!(s.rescan_account("a".to_string()), Ok("a".to_string()));
    let a = s.db_handler.get("a").unwrap();
    assert_eq!((a.head, a.hash.as_str(), a.need_scan), (9, "B9", true));
}

fn plain(address: &str, head: i64, need_scan: bool) -> Account {
    Account {
        name: address.to_string(),
        create_head: None,
        create_hash: None,
        head,
        hash: format!("B{}", head),
        in_vk: "in".to_string(),
        out_vk: "out".to_string(),
        vk: "vk".to_string(),
        address: address.to_string(),
        need_scan,
    }
}

fn job(address: &str, from: i64, to: i64) -> Job {
    Job { address: address.to_string(), from_sequence: from, to_sequence: to }
}

#[test]
fn schedule_gives_the_most_urgent_account_to_the_first_free_session() {
    let mut s = state();
    assert!(s.db_handler.save(plain("a", 3, false), 0).is_ok());
    assert!(s.db_handler.save(plain("b", 8, true), 0).is_ok());
    assert!(s.db_handler.save(plain("c", 2, false), 0).is_ok());
    assert!(s.db_handler.save(plain("d", 20, true), 0).is_ok());
    assert_eq!(s.schedule(10, 20), Ok(None));
    assert_eq!(s.scan_handler.connect(1, &[2u8; 33]), Ok(()));
    assert_eq!(s.scan_handler.connect(2, &[2u8; 33]), Ok(()));
    assert_eq!(s.scan_handler.connect(3, &[2u8; 33]), Ok(()));
    assert_eq!(s.scan_handler.connect(4, &[2u8; 33]), Ok(()));
    assert_eq!(s.schedule(10, 20), Ok(Some((1, job("b", 9, 20)))));
    assert_eq!(s.schedule(10, 20), Ok(Some((2, job("c", 3, 20)))));
    assert_eq!(s.schedule(10, 20), Ok(Some((3, job("a", 4, 20)))));
    assert_eq!(s.schedule(10, 20), Ok(None));
    assert_eq!(s.scan_handler.state(4), Some(SessionState::Connected));
    assert_eq!(s.scan_handler.holder("d"), None);
}

#[test]
fn schedule_leaves_out_what_the_limit_leaves_no_room_for() {
    let mut s = state();
    assert!(s.db_handler.save(plain("a", 3, false), 0).is_ok());
    assert!(s.db_handler.save(plain("b", 8, true), 0).is_ok());
    assert!(s.db_handler.save(plain("c", 2, false), 0).is_ok());
    assert_eq!(s.scan_handler.connect(1, &[2u8; 33]), Ok(()));
    assert_eq!(s.scan_handler.connect(2, &[2u8; 33]), Ok(()));
    assert_eq!(s.scan_handler.connect(3, &[2u8; 33]), Ok(()));
    assert_eq!(s.schedule(2, 20), Ok(Some((1, job("b", 9, 20)))));
    assert_eq!(s.schedule(2, 20), Ok(Some((2, job("c", 3, 20)))));
    assert_eq!(s.schedule(2, 20), Ok(None));
    assert_eq!(s.schedule(3, 20), Ok(Some((3, job("a", 4, 20)))));
}

#[test]
fn take_report_reconciles_the_report_of_an_awaited_session() {
    let mut s = state();
    assert!(s.db_handler.save(plain("a", 3, false), 0).is_ok());
    assert_eq!(s.scan_handler.connect(1, &[2u8; 33]), Ok(()));
    let r = Report {
        address: "a".to_string(),
        sequence: 4,
        hash: "B4".to_string(),
        parent_hash: "B3".to_string(),
    };
    assert_eq!(s.take_report(1, &r), Err(OreoError::Invalid));
    assert_eq!(s.take_report(2, &r), Err(OreoError::NotFound));
    assert_eq!(s.schedule(10, 9), Ok(Some((1, job("a", 4, 9)))));
    assert_eq!(s.scan_handler.mark_sent(1), Ok(()));
    assert_eq!(s.take_report(1, &r), Ok(Outcome::Extended));
    assert_eq!(s.db_handler.get("a").unwrap().head, 4);
    assert_eq!(s.take_report(1, &r), Ok(Outcome::Duplicate));
    assert_eq!(s.scan_handler.state(1), Some(SessionState::AwaitingReport));
}
