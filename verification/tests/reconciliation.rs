use dservice::account::{Account, UnstableAccount};
use dservice::error::OreoError;
use dservice::ledger::Ledger;
use dservice::reconcile::{apply_report, promote, Outcome, Report};

fn account(address: &str, head: i64, hash: &str) -> Account {
    Account {
        name: address.to_string(),
        create_head: None,
        create_hash: None,
        head,
        hash: hash.to_string(),
        in_vk: "in".to_string(),
        out_vk: "out".to_string(),
        vk: "vk".to_string(),
        address: address.to_string(),
        need_scan: false,
    }
}

fn report(address: &str, sequence: i64, hash: &str, parent: &str) -> Report {
    Report {
        address: address.to_string(),
        sequence,
        hash: hash.to_string(),
        parent_hash: parent.to_string(),
    }
}

fn row(address: &str, sequence: i64, hash: &str) -> UnstableAccount {
    UnstableAccount { address: address.to_string(), sequence, hash: hash.to_string() }
}

fn ledger_at(head: i64, hash: &str) -> Ledger {
    let mut ledger = Ledger::new();
    assert!(ledger.save(account("alice", head, hash), 0).is_ok());
    assert!(ledger.save(account("bob", head, hash), 0).is_ok());
    ledger
}

fn checkpoint(ledger: &Ledger, address: &str) -> (i64, String, bool) {
    let a = ledger.get(address).unwrap();
    (a.head, a.hash, a.need_scan)
}

fn snapshot(ledger: &Ledger) -> (Vec<Account>, Vec<Option<UnstableAccount>>, Vec<Option<String>>) {
    let mut rows = Vec::new();
    let mut parents = Vec::new();
    for address in ["alice", "bob"] {
        for s in 0..30 {
            rows.push(ledger.get_unstable(address, s).ok());
            parents.push(ledger.unstable_parent(address, s).ok().flatten());
        }
    }
    (ledger.oldest(100), rows, parents)
}

#[test]
fn report_on_top_of_the_head_extends_it() {
    let mut ledger = ledger_at(10, "H10");
    assert_eq!(apply_report(&mut ledger, &report("alice", 11, "H11", "H10")), Ok(Outcome::Extended));
    assert_eq!(checkpoint(&ledger, "alice"), (11, "H11".to_string(), false));
    assert_eq!(ledger.get_unstable("alice", 11), Err(OreoError::NotFound));
    assert_eq!(checkpoint(&ledger, "bob"), (10, "H10".to_string(), false));
}

#[test]
fn report_with_another_parent_is_kept_as_an_observation() {
    let mut ledger = ledger_at(10, "H10");
    assert_eq!(apply_report(&mut ledger, &report("alice", 11, "H11", "other")), Ok(Outcome::Stored));
    assert_eq!(checkpoint(&ledger, "alice"), (10, "H10".to_string(), false));
    assert_eq!(ledger.get_unstable("alice", 11), Ok(row("alice", 11, "H11")));
    assert_eq!(ledger.unstable_parent("alice", 11), Ok(Some("other".to_string())));
}

#[test]
fn report_above_the_next_sequence_is_kept_as_an_observation() {
    let mut ledger = ledger_at(10, "H10");
    assert_eq!(apply_report(&mut ledger, &report("alice", 13, "H13", "H12")), Ok(Outcome::Stored));
    assert_eq!(checkpoint(&ledger, "alice"), (10, "H10".to_string(), false));
    assert_eq!(ledger.get_unstable("alice", 13), Ok(row("alice", 13, "H13")));
    assert_eq!(ledger.unstable_parent("alice", 13), Ok(Some("H12".to_string())));
}

#[test]
fn report_below_the_head_is_dropped() {
    let mut ledger = ledger_at(10, "H10");
    let before = snapshot(&ledger);
    assert_eq!(apply_report(&mut ledger, &report("alice", 9, "H9", "H8")), Err(OreoError::Invalid));
    assert_eq!(apply_report(&mut ledger, &report("alice", 9, "X", "Y")), Err(OreoError::Invalid));
    assert_eq!(apply_report(&mut ledger, &report("alice", -3, "X", "Y")), Err(OreoError::Invalid));
    assert_eq!(snapshot(&ledger), before);
}

#[test]
fn report_at_the_lowest_sequence_is_dropped() {
    let mut ledger = Ledger::new();
    assert!(ledger.save(account("alice", i64::MIN, "H"), 0).is_ok());
    assert_eq!(
        apply_report(&mut ledger, &report("alice", i64::MIN, "X", "Y")),
        Err(OreoError::Invalid)
    );
    assert_eq!(
        apply_report(&mut ledger, &report("nobody", i64::MIN, "X", "Y")),
        Err(OreoError::Invalid)
    );
    assert_eq!(checkpoint(&ledger, "alice"), (i64::MIN, "H".to_string(), false));
}

#[test]
fn report_for_an_unknown_address_is_not_found() {
    let mut ledger = ledger_at(10, "H10");
    let before = snapshot(&ledger);
    assert_eq!(apply_report(&mut ledger, &report("carol", 11, "H11", "H10")), Err(OreoError::NotFound));
    assert_eq!(snapshot(&ledger), before);
}

#[test]
fn report_of_the_stable_checkpoint_changes_nothing() {
    let mut ledger = ledger_at(10, "H10");
    let before = snapshot(&ledger);
    assert_eq!(apply_report(&mut ledger, &report("alice", 10, "H10", "H9")), Ok(Outcome::Duplicate));
    assert_eq!(snapshot(&ledger), before);
}

#[test]
fn applying_an_extending_report_twice_is_applying_it_once() {
    let mut ledger = ledger_at(10, "H10");
    let r = report("alice", 11, "H11", "H10");
    assert_eq!(apply_report(&mut ledger, &r), Ok(Outcome::Extended));
    let once = snapshot(&ledger);
    assert_eq!(apply_report(&mut ledger, &r), Ok(Outcome::Duplicate));
    assert_eq!(snapshot(&ledger), once);
}

#[test]
fn applying_a_provisional_report_twice_is_applying_it_once() {
    let mut ledger = ledger_at(10, "H10");
    let r = report("alice", 12, "H12", "H11");
    assert_eq!(apply_report(&mut ledger, &r), Ok(Outcome::Stored));
    let once = snapshot(&ledger);
    assert_eq!(apply_report(&mut ledger, &r), Ok(Outcome::Stored));
    assert_eq!(snapshot(&ledger), once);
}

#[test]
fn applying_a_report_that_promoted_twice_is_applying_it_once() {
    let mut ledger = ledger_at(10, "H10");
    assert_eq!(apply_report(&mut ledger, &report("alice", 12, "H12", "H11")), Ok(Outcome::Stored));
    let r = report("alice", 11, "H11", "H10");
    assert_eq!(apply_report(&mut ledger, &r), Ok(Outcome::Extended));
    assert_eq!(checkpoint(&ledger, "alice"), (12, "H12".to_string(), false));
    let once = snapshot(&ledger);
    assert_eq!(apply_report(&mut ledger, &r), Err(OreoError::Invalid));
    assert_eq!(snapshot(&ledger), once);
}

fn deliver(order: [usize; 3]) {
    let reports = [
        report("alice", 11, "H11", "H10"),
        report("alice", 12, "H12", "H11"),
        report("alice", 13, "H13", "H12"),
    ];
    let mut ledger = ledger_at(10, "H10");
    let mut last = 10;
    for i in order {
        assert!(apply_report(&mut ledger, &reports[i]).is_ok());
        let (head, _, flag) = checkpoint(&ledger, "alice");
        assert!(head >= 10);
        assert!(head >= last);
        assert!(!flag);
        last = head;
    }
    assert_eq!(checkpoint(&ledger, "alice"), (13, "H13".to_string(), false));
    for s in 0..20 {
        assert_eq!(ledger.get_unstable("alice", s), Err(OreoError::NotFound));
    }
    assert_eq!(checkpoint(&ledger, "bob"), (10, "H10".to_string(), false));
}

#[test]
fn three_reports_in_order_reach_the_last() {
    deliver([0, 1, 2]);
}

#[test]
fn three_reports_in_reverse_order_reach_the_last() {
    deliver([2, 1, 0]);
}

#[test]
fn three_reports_in_any_other_order_reach_the_last() {
    deliver([0, 2, 1]);
    deliver([1, 0, 2]);
    deliver([1, 2, 0]);
    deliver([2, 0, 1]);
}

#[test]
fn out_of_order_reports_wait_as_observations() {
    let mut ledger = ledger_at(10, "H10");
    assert_eq!(apply_report(&mut ledger, &report("alice", 13, "H13", "H12")), Ok(Outcome::Stored));
    assert_eq!(apply_report(&mut ledger, &report("alice", 11, "H11", "H10")), Ok(Outcome::Extended));
    assert_eq!(checkpoint(&ledger, "alice"), (11, "H11".to_string(), false));
    assert_eq!(ledger.get_unstable("alice", 13), Ok(row("alice", 13, "H13")));
    assert_eq!(apply_report(&mut ledger, &report("alice", 12, "H12", "H11")), Ok(Outcome::Extended));
    assert_eq!(checkpoint(&ledger, "alice"), (13, "H13".to_string(), false));
    assert_eq!(ledger.get_unstable("alice", 13), Err(OreoError::NotFound));
}

#[test]
fn observation_of_another_fork_is_not_promoted() {
    let mut ledger = ledger_at(10, "H10");
    // block 12 was seen on top of a block 11 that is not the one confirmed later
    assert_eq!(apply_report(&mut ledger, &report("alice", 12, "A12", "A11")), Ok(Outcome::Stored));
    assert_eq!(apply_report(&mut ledger, &report("alice", 13, "A13", "A12")), Ok(Outcome::Stored));
    assert_eq!(apply_report(&mut ledger, &report("alice", 11, "B11", "H10")), Ok(Outcome::Extended));
    assert_eq!(checkpoint(&ledger, "alice"), (11, "B11".to_string(), false));
    assert_eq!(ledger.get_unstable("alice", 12), Ok(row("alice", 12, "A12")));
    assert_eq!(ledger.get_unstable("alice", 13), Ok(row("alice", 13, "A13")));
}

#[test]
fn observation_without_a_parent_is_not_promoted() {
    let mut ledger = ledger_at(10, "H10");
    assert!(ledger.put_unstable(row("alice", 12, "H12")).is_ok());
    assert_eq!(apply_report(&mut ledger, &report("alice", 11, "H11", "H10")), Ok(Outcome::Extended));
    assert_eq!(checkpoint(&ledger, "alice"), (11, "H11".to_string(), false));
    assert_eq!(ledger.get_unstable("alice", 12), Ok(row("alice", 12, "H12")));
}

#[test]
fn reorg_at_the_head_rewinds_and_flags() {
    let mut ledger = ledger_at(10, "H10");
    assert_eq!(apply_report(&mut ledger, &report("alice", 11, "H11a", "H10")), Ok(Outcome::Extended));
    assert_eq!(checkpoint(&ledger, "alice"), (11, "H11a".to_string(), false));
    assert_eq!(apply_report(&mut ledger, &report("alice", 11, "H11b", "H10")), Ok(Outcome::Rewound));
    assert_eq!(checkpoint(&ledger, "alice"), (10, "H10".to_string(), true));
    for s in 0..20 {
        assert_eq!(ledger.get_unstable("alice", s), Err(OreoError::NotFound));
    }
    assert_eq!(checkpoint(&ledger, "bob"), (10, "H10".to_string(), false));
}

#[test]
fn reorg_among_observations_leaves_the_head_and_flags() {
    let mut ledger = ledger_at(10, "H10");
    assert_eq!(apply_report(&mut ledger, &report("alice", 12, "H12a", "H11")), Ok(Outcome::Stored));
    assert_eq!(apply_report(&mut ledger, &report("alice", 14, "H14", "H13")), Ok(Outcome::Stored));
    assert_eq!(apply_report(&mut ledger, &report("bob", 12, "H12a", "H11")), Ok(Outcome::Stored));
    assert_eq!(apply_report(&mut ledger, &report("alice", 12, "H12b", "H11")), Ok(Outcome::Rewound));
    assert_eq!(checkpoint(&ledger, "alice"), (10, "H10".to_string(), true));
    assert_eq!(ledger.get_unstable("alice", 12), Err(OreoError::NotFound));
    assert_eq!(ledger.get_unstable("alice", 14), Err(OreoError::NotFound));
    assert_eq!(ledger.get_unstable("bob", 12), Ok(row("bob", 12, "H12a")));
    assert_eq!(checkpoint(&ledger, "bob"), (10, "H10".to_string(), false));
}

#[test]
fn fork_is_seen_before_the_fast_path() {
    let mut ledger = ledger_at(10, "H10");
    assert_eq!(apply_report(&mut ledger, &report("alice", 11, "H11a", "other")), Ok(Outcome::Stored));
    assert_eq!(apply_report(&mut ledger, &report("alice", 11, "H11b", "H10")), Ok(Outcome::Rewound));
    assert_eq!(checkpoint(&ledger, "alice"), (10, "H10".to_string(), true));
    assert_eq!(ledger.get_unstable("alice", 11), Err(OreoError::NotFound));
}

#[test]
fn rewind_does_not_go_below_the_origin() {
    let mut ledger = Ledger::new();
    let mut a = account("alice", 10, "H10");
    a.create_head = Some(10);
    a.create_hash = Some("C10".to_string());
    assert!(ledger.save(a, 0).is_ok());
    assert_eq!(apply_report(&mut ledger, &report("alice", 10, "X10", "X9")), Ok(Outcome::Rewound));
    let after = ledger.get("alice").unwrap();
    assert_eq!((after.head, after.hash.as_str(), after.need_scan), (10, "C10", true));
    assert_eq!(after.create_head, Some(10));
}

#[test]
fn rewind_above_the_origin_goes_one_below_the_fork() {
    let mut ledger = Ledger::new();
    let mut a = account("alice", 10, "H10");
    a.create_head = Some(4);
    a.create_hash = Some("C4".to_string());
    assert!(ledger.save(a, 0).is_ok());
    assert_eq!(apply_report(&mut ledger, &report("alice", 10, "X10", "X9")), Ok(Outcome::Rewound));
    let after = ledger.get("alice").unwrap();
    assert_eq!((after.head, after.hash.as_str(), after.need_scan), (9, "X9", true));
}

#[test]
fn a_rescan_after_a_rewind_heals_the_account() {
    let mut ledger = ledger_at(10, "H10");
    assert!(apply_report(&mut ledger, &report("alice", 11, "H11a", "H10")).is_ok());
    assert_eq!(apply_report(&mut ledger, &report("alice", 11, "H11b", "H10")), Ok(Outcome::Rewound));
    assert_eq!(apply_report(&mut ledger, &report("alice", 11, "H11b", "H10")), Ok(Outcome::Extended));
    assert_eq!(checkpoint(&ledger, "alice"), (11, "H11b".to_string(), true));
}

#[test]
fn promote_follows_the_linked_observations() {
    let mut ledger = ledger_at(10, "H10");
    assert!(ledger.put_linked(row("alice", 11, "H11"), "H10".to_string()).is_ok());
    assert!(ledger.put_linked(row("alice", 12, "H12"), "H11".to_string()).is_ok());
    assert!(ledger.put_linked(row("alice", 13, "H13"), "wrong".to_string()).is_ok());
    assert!(ledger.put_linked(row("alice", 14, "H14"), "H13".to_string()).is_ok());
    assert_eq!(promote(&mut ledger, "alice"), Ok(12));
    assert_eq!(checkpoint(&ledger, "alice"), (12, "H12".to_string(), false));
    assert_eq!(ledger.get_unstable("alice", 11), Err(OreoError::NotFound));
    assert_eq!(ledger.get_unstable("alice", 12), Err(OreoError::NotFound));
    assert_eq!(ledger.get_unstable("alice", 13), Ok(row("alice", 13, "H13")));
    assert_eq!(ledger.get_unstable("alice", 14), Ok(row("alice", 14, "H14")));
    assert_eq!(promote(&mut ledger, "alice"), Ok(12));
    assert_eq!(promote(&mut ledger, "carol"), Err(OreoError::NotFound));
}

#[test]
fn promote_stops_at_a_gap() {
    let mut ledger = ledger_at(10, "H10");
    assert!(ledger.put_linked(row("alice", 12, "H12"), "H11".to_string()).is_ok());
    assert_eq!(promote(&mut ledger, "alice"), Ok(10));
    assert_eq!(checkpoint(&ledger, "alice"), (10, "H10".to_string(), false));
    assert_eq!(ledger.get_unstable("alice", 12), Ok(row("alice", 12, "H12")));
}

#[test]
fn promote_stops_at_the_highest_sequence() {
    let mut ledger = Ledger::new();
    assert!(ledger.save(account("alice", i64::MAX - 1, "H"), 0).is_ok());
    assert!(ledger.put_linked(row("alice", i64::MAX, "top"), "H".to_string()).is_ok());
    assert_eq!(promote(&mut ledger, "alice"), Ok(i64::MAX));
    assert_eq!(checkpoint(&ledger, "alice"), (i64::MAX, "top".to_string(), false));
    assert_eq!(promote(&mut ledger, "alice"), Ok(i64::MAX));
}
