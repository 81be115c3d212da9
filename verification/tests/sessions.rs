use dservice::account::Account;
use dservice::error::OreoError;
use dservice::keys::SecpKey;
use dservice::ledger::Ledger;
use dservice::reconcile::{Outcome, Report};
use dservice::scheduler::Job;
use dservice::session::{Coordinator, SessionState};

const PK: [u8; 33] = [7u8; 33];

fn coordinator() -> Coordinator {
    Coordinator::new(SecpKey { sk: [1u8; 32], pk: PK })
}

fn job(address: &str, from: i64, to: i64) -> Job {
    Job { address: address.to_string(), from_sequence: from, to_sequence: to }
}

fn account(address: &str, head: i64) -> Account {
    Account {
        name: address.to_string(),
        create_head: None,
        create_hash: None,
        head,
        hash: format!("H{}", head),
        in_vk: "in".to_string(),
        out_vk: "out".to_string(),
        vk: "vk".to_string(),
        address: address.to_string(),
        need_scan: false,
    }
}

fn report(address: &str, sequence: i64, hash: &str, parent: &str) -> Report {
    Report {
        address: address.to_string(),
        sequence,
        hash: hash.to_string(),
        parent_hash: parent.to_string(),
    }
}

#[test]
fn session_with_the_right_key_connects() {
    let mut c = coordinator();
    assert_eq!(c.state(1), None);
    assert_eq!(c.connect(1, &PK), Ok(()));
    assert_eq!(c.state(1), Some(SessionState::Connected));
    assert_eq!(c.job(1), None);
}

#[test]
fn session_with_another_key_is_rejected() {
    let mut c = coordinator();
    let mut other = PK;
    other[32] = 8;
    assert_eq!(c.connect(1, &other), Err(OreoError::Invalid));
    assert_eq!(c.state(1), None);
    assert_eq!(c.assign(1, job("a", 1, 2)), Err(OreoError::NotFound));
    assert_eq!(c.free_session(), None);
}

#[test]
fn session_id_in_use_is_a_conflict() {
    let mut c = coordinator();
    assert_eq!(c.connect(1, &PK), Ok(()));
    assert_eq!(c.connect(1, &PK), Err(OreoError::Conflict));
    assert_eq!(c.close(1), Ok(None));
    assert_eq!(c.connect(1, &PK), Err(OreoError::Conflict));
    assert_eq!(c.state(1), Some(SessionState::Closed));
}

#[test]
fn session_walks_through_its_states() {
    let mut c = coordinator();
    assert_eq!(c.connect(1, &PK), Ok(()));
    assert_eq!(c.assign(1, job("a", 11, 20)), Ok(()));
    assert_eq!(c.state(1), Some(SessionState::Assigned));
    assert_eq!(c.job(1), Some(job("a", 11, 20)));
    assert_eq!(c.holder("a"), Some(1));
    assert_eq!(c.mark_sent(1), Ok(()));
    assert_eq!(c.state(1), Some(SessionState::AwaitingReport));
    assert_eq!(c.job(1), Some(job("a", 11, 20)));
    assert_eq!(c.complete(1), Ok(job("a", 11, 20)));
    assert_eq!(c.state(1), Some(SessionState::Idle));
    assert_eq!(c.job(1), None);
    assert_eq!(c.holder("a"), None);
    assert_eq!(c.assign(1, job("b", 1, 2)), Ok(()));
    assert_eq!(c.state(1), Some(SessionState::Assigned));
    assert_eq!(c.close(1), Ok(Some(job("b", 1, 2))));
    assert_eq!(c.state(1), Some(SessionState::Closed));
    assert_eq!(c.holder("b"), None);
}

#[test]
fn steps_out_of_turn_are_invalid() {
    let mut c = coordinator();
    assert_eq!(c.mark_sent(1), Err(OreoError::NotFound));
    assert_eq!(c.complete(1), Err(OreoError::NotFound));
    assert_eq!(c.release(1), Err(OreoError::NotFound));
    assert_eq!(c.close(1), Err(OreoError::NotFound));
    assert_eq!(c.connect(1, &PK), Ok(()));
    assert_eq!(c.mark_sent(1), Err(OreoError::Invalid));
    assert_eq!(c.complete(1), Err(OreoError::Invalid));
    assert_eq!(c.release(1), Err(OreoError::Invalid));
    assert_eq!(c.assign(1, job("a", 1, 2)), Ok(()));
    assert_eq!(c.complete(1), Err(OreoError::Invalid));
    assert_eq!(c.assign(1, job("b", 1, 2)), Err(OreoError::Invalid));
    assert_eq!(c.mark_sent(1), Ok(()));
    assert_eq!(c.mark_sent(1), Err(OreoError::Invalid));
    assert_eq!(c.assign(1, job("b", 1, 2)), Err(OreoError::Invalid));
    assert_eq!(c.state(1), Some(SessionState::AwaitingReport));
    assert_eq!(c.job(1), Some(job("a", 1, 2)));
    assert_eq!(c.close(1), Ok(Some(job("a", 1, 2))));
    assert_eq!(c.assign(1, job("b", 1, 2)), Err(OreoError::Invalid));
    assert_eq!(c.mark_sent(1), Err(OreoError::Invalid));
    assert_eq!(c.close(1), Ok(None));
}

#[test]
fn empty_job_is_invalid() {
    let mut c = coordinator();
    assert_eq!(c.connect(1, &PK), Ok(()));
    assert_eq!(c.assign(1, job("a", 5, 4)), Err(OreoError::Invalid));
    assert_eq!(c.state(1), Some(SessionState::Connected));
    assert_eq!(c.holder("a"), None);
    assert_eq!(c.assign(1, job("a", 5, 5)), Ok(()));
}

#[test]
fn two_sessions_never_hold_a_job_for_the_same_address() {
    let mut c = coordinator();
    assert_eq!(c.connect(1, &PK), Ok(()));
    assert_eq!(c.connect(2, &PK), Ok(()));
    assert_eq!(c.assign(1, job("a", 11, 20)), Ok(()));
    assert_eq!(c.assign(2, job("a", 11, 20)), Err(OreoError::Conflict));
    assert_eq!(c.assign(2, job("a", 30, 40)), Err(OreoError::Conflict));
    assert_eq!(c.state(2), Some(SessionState::Connected));
    assert_eq!(c.job(2), None);
    assert_eq!(c.holder("a"), Some(1));
    assert_eq!(c.mark_sent(1), Ok(()));
    assert_eq!(c.assign(2, job("a", 11, 20)), Err(OreoError::Conflict));
    assert_eq!(c.complete(1), Ok(job("a", 11, 20)));
    assert_eq!(c.assign(2, job("a", 11, 20)), Ok(()));
    assert_eq!(c.holder("a"), Some(2));
    assert_eq!(c.assign(1, job("a", 11, 20)), Err(OreoError::Conflict));
    assert_eq!(c.assign(1, job("b", 11, 20)), Ok(()));
}

#[test]
fn closing_a_session_returns_its_job_and_unlocks_the_address() {
    let mut c = coordinator();
    assert_eq!(c.connect(1, &PK), Ok(()));
    assert_eq!(c.connect(2, &PK), Ok(()));
    assert_eq!(c.assign(1, job("a", 11, 20)), Ok(()));
    assert_eq!(c.mark_sent(1), Ok(()));
    assert_eq!(c.close(1), Ok(Some(job("a", 11, 20))));
    assert_eq!(c.holder("a"), None);
    assert_eq!(c.assign(2, job("a", 11, 20)), Ok(()));
}

#[test]
fn releasing_a_job_returns_it_and_leaves_the_session_idle() {
    let mut c = coordinator();
    assert_eq!(c.connect(1, &PK), Ok(()));
    assert_eq!(c.assign(1, job("a", 11, 20)), Ok(()));
    assert_eq!(c.release(1), Ok(job("a", 11, 20)));
    assert_eq!(c.state(1), Some(SessionState::Idle));
    assert_eq!(c.holder("a"), None);
    assert_eq!(c.assign(1, job("a", 11, 20)), Ok(()));
    assert_eq!(c.mark_sent(1), Ok(()));
    assert_eq!(c.release(1), Ok(job("a", 11, 20)));
    assert_eq!(c.state(1), Some(SessionState::Idle));
}

#[test]
fn free_session_is_the_first_that_can_take_a_job() {
    let mut c = coordinator();
    assert_eq!(c.free_session(), None);
    assert_eq!(c.connect(5, &PK), Ok(()));
    assert_eq!(c.connect(3, &PK), Ok(()));
    assert_eq!(c.connect(9, &PK), Ok(()));
    assert_eq!(c.free_session(), Some(5));
    assert_eq!(c.assign(5, job("a", 1, 2)), Ok(()));
    assert_eq!(c.free_session(), Some(3));
    assert_eq!(c.close(3), Ok(None));
    assert_eq!(c.free_session(), Some(9));
    assert_eq!(c.mark_sent(5), Ok(()));
    assert_eq!(c.complete(5), Ok(job("a", 1, 2)));
    assert_eq!(c.free_session(), Some(5));
    assert_eq!(c.assign(5, job("a", 1, 2)), Ok(()));
    assert_eq!(c.assign(9, job("b", 1, 2)), Ok(()));
    assert_eq!(c.free_session(), None);
}

#[test]
fn assign_next_takes_the_first_candidate_that_can_be_given_out() {
    let mut c = coordinator();
    assert_eq!(c.connect(1, &PK), Ok(()));
    assert_eq!(c.connect(2, &PK), Ok(()));
    assert_eq!(c.connect(3, &PK), Ok(()));
    let list = vec![account("done", 50), account("a", 10), account("b", 20), account("c", 49)];
    assert_eq!(c.assign_next(1, &list, 50), Ok(Some(job("a", 11, 50))));
    assert_eq!(c.state(1), Some(SessionState::Assigned));
    assert_eq!(c.job(1), Some(job("a", 11, 50)));
    assert_eq!(c.assign_next(2, &list, 50), Ok(Some(job("b", 21, 50))));
    assert_eq!(c.assign_next(3, &list, 50), Ok(Some(job("c", 50, 50))));
    assert_eq!(c.holder("a"), Some(1));
    assert_eq!(c.holder("b"), Some(2));
    assert_eq!(c.holder("c"), Some(3));
    assert_eq!(c.holder("done"), None);
}

#[test]
fn assign_next_leaves_the_session_free_where_nothing_can_be_given_out() {
    let mut c = coordinator();
    assert_eq!(c.connect(1, &PK), Ok(()));
    assert_eq!(c.connect(2, &PK), Ok(()));
    let list = vec![account("a", 10), account("done", 50)];
    assert_eq!(c.assign_next(1, &list, 50), Ok(Some(job("a", 11, 50))));
    assert_eq!(c.assign_next(2, &list, 50), Ok(None));
    assert_eq!(c.state(2), Some(SessionState::Connected));
    assert_eq!(c.assign_next(2, &Vec::new(), 50), Ok(None));
    assert_eq!(c.assign_next(1, &list, 50), Err(OreoError::Invalid));
    assert_eq!(c.assign_next(7, &list, 50), Err(OreoError::NotFound));
    assert_eq!(c.job(1), Some(job("a", 11, 50)));
}

#[test]
fn report_of_an_awaited_session_is_applied() {
    let mut c = coordinator();
    let mut ledger = Ledger::new();
    assert!(ledger.save(account("a", 10), 0).is_ok());
    assert_eq!(c.connect(1, &PK), Ok(()));
    assert_eq!(c.assign(1, job("a", 11, 20)), Ok(()));
    assert_eq!(c.mark_sent(1), Ok(()));
    assert_eq!(c.receive(1, &mut ledger, &report("a", 11, "H11", "H10")), Ok(Outcome::Extended));
    assert_eq!(ledger.get("a").unwrap().head, 11);
    assert_eq!(c.receive(1, &mut ledger, &report("a", 13, "H13", "H12")), Ok(Outcome::Stored));
    assert_eq!(c.receive(1, &mut ledger, &report("a", 11, "X11", "H10")), Ok(Outcome::Rewound));
    let a = ledger.get("a").unwrap();
    assert_eq!((a.head, a.hash.as_str(), a.need_scan), (10, "H10", true));
    assert_eq!(c.state(1), Some(SessionState::AwaitingReport));
}

#[test]
fn report_that_the_job_does_not_cover_is_dropped() {
    let mut c = coordinator();
    let mut ledger = Ledger::new();
    assert!(ledger.save(account("a", 10), 0).is_ok());
    assert!(ledger.save(account("b", 10), 0).is_ok());
    let r = report("a", 11, "H11", "H10");
    assert_eq!(c.receive(1, &mut ledger, &r), Err(OreoError::NotFound));
    assert_eq!(c.connect(1, &PK), Ok(()));
    assert_eq!(c.receive(1, &mut ledger, &r), Err(OreoError::Invalid));
    assert_eq!(c.assign(1, job("a", 11, 20)), Ok(()));
    assert_eq!(c.receive(1, &mut ledger, &r), Err(OreoError::Invalid));
    assert_eq!(c.mark_sent(1), Ok(()));
    assert_eq!(c.receive(1, &mut ledger, &report("b", 11, "H11", "H10")), Err(OreoError::Invalid));
    assert_eq!(c.receive(1, &mut ledger, &report("a", 21, "H21", "H20")), Err(OreoError::Invalid));
    assert_eq!(c.receive(1, &mut ledger, &report("a", 10, "X10", "H9")), Err(OreoError::Invalid));
    assert_eq!(ledger.get("a"), Ok(account("a", 10)));
    assert_eq!(ledger.get("b"), Ok(account("b", 10)));
    assert_eq!(ledger.get_unstable("a", 21), Err(OreoError::NotFound));
    assert_eq!(c.receive(1, &mut ledger, &r), Ok(Outcome::Extended));
    assert_eq!(c.complete(1), Ok(job("a", 11, 20)));
    assert_eq!(c.receive(1, &mut ledger, &report("a", 12, "H12", "H11")), Err(OreoError::Invalid));
    assert_eq!(ledger.get("a").unwrap().head, 11);
}

#[test]
fn dispatch_gives_the_first_candidate_to_the_first_free_session() {
    let mut c = coordinator();
    let list = vec![account("done", 50), account("a", 10), account("b", 20)];
    assert_eq!(c.dispatch(&list, 50), None);
    assert_eq!(c.connect(8, &PK), Ok(()));
    assert_eq!(c.connect(4, &PK), Ok(()));
    assert_eq!(c.connect(6, &PK), Ok(()));
    assert_eq!(c.dispatch(&list, 50), Some((8, job("a", 11, 50))));
    assert_eq!(c.dispatch(&list, 50), Some((4, job("b", 21, 50))));
    assert_eq!(c.dispatch(&list, 50), None);
    assert_eq!(c.state(6), Some(SessionState::Connected));
    assert_eq!(c.state(8), Some(SessionState::Assigned));
    assert_eq!(c.state(4), Some(SessionState::Assigned));
    assert_eq!(c.close(8), Ok(Some(job("a", 11, 50))));
    assert_eq!(c.dispatch(&list, 50), Some((6, job("a", 11, 50))));
    assert_eq!(c.dispatch(&list, 60), None);
}

#[test]
fn finish_hands_the_session_its_next_job() {
    let mut c = coordinator();
    assert_eq!(c.connect(1, &PK), Ok(()));
    assert_eq!(c.connect(2, &PK), Ok(()));
    assert_eq!(c.assign(1, job("a", 11, 20)), Ok(()));
    assert_eq!(c.assign(2, job("b", 11, 20)), Ok(()));
    let list = vec![account("b", 10), account("a", 20), account("c", 5)];
    assert_eq!(c.finish(1, &list, 30), Err(OreoError::Invalid));
    assert_eq!(c.finish(9, &list, 30), Err(OreoError::NotFound));
    assert_eq!(c.mark_sent(1), Ok(()));
    // the address of the job that ends is free again, and is the first that can be given out
    assert_eq!(c.finish(1, &list, 30), Ok((job("a", 11, 20), Some(job("a", 21, 30)))));
    assert_eq!(c.state(1), Some(SessionState::Assigned));
    assert_eq!(c.job(1), Some(job("a", 21, 30)));
    assert_eq!(c.mark_sent(1), Ok(()));
    let rest = vec![account("b", 10), account("a", 30)];
    assert_eq!(c.finish(1, &rest, 30), Ok((job("a", 21, 30), None)));
    assert_eq!(c.state(1), Some(SessionState::Idle));
    assert_eq!(c.job(1), None);
    assert_eq!(c.holder("a"), None);
    assert_eq!(c.holder("b"), Some(2));
}
