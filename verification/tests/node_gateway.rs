use dservice::account::Account;
use dservice::error::OreoError;
use dservice::ledger::Ledger;
use dservice::node::{
    check_genesis, report_for, Block, BlockIdentifier, Chain, LatestBlock, GENESIS_SEQUENCE,
};
use dservice::reconcile::{apply_report, Outcome, Report};

fn chain_of(hashes: &[&str]) -> Chain {
    let mut chain = Chain::new(hashes[0].to_string());
    for h in &hashes[1..] {
        assert!(chain.extend(h.to_string()));
    }
    chain
}

fn account(address: &str, head: i64, hash: &str) -> Account {
    Account {
        name: address.to_string(),
        create_head: Some(head),
        create_hash: Some(hash.to_string()),
        head,
        hash: hash.to_string(),
        in_vk: "in".to_string(),
        out_vk: "out".to_string(),
        vk: "vk".to_string(),
        address: address.to_string(),
        need_scan: false,
    }
}

fn assert_checkpoints_on_chain(ledger: &Ledger, chain: &Chain) {
    for a in ledger.oldest(100) {
        if !a.need_scan {
            assert_eq!(chain.block_at(a.head).unwrap().hash, a.hash);
        }
    }
}

#[test]
fn latest_block_names_the_head_and_the_genesis_block() {
    let chain = chain_of(&["G", "B2", "B3"]);
    assert_eq!(
        chain.latest_block(),
        LatestBlock {
            current_block_identifier: BlockIdentifier { index: 3, hash: "B3".to_string() },
            genesis_block_identifier: BlockIdentifier {
                index: GENESIS_SEQUENCE,
                hash: "G".to_string()
            },
        }
    );
    assert_eq!(chain.head(), 3);
    let alone = Chain::new("G".to_string());
    assert_eq!(alone.head(), 1);
    assert_eq!(alone.latest_block().current_block_identifier, BlockIdentifier {
        index: 1,
        hash: "G".to_string()
    });
}

#[test]
fn block_at_gives_the_block_with_its_parent() {
    let chain = chain_of(&["G", "B2", "B3"]);
    assert_eq!(
        chain.block_at(1),
        Ok(Block { sequence: 1, hash: "G".to_string(), previous_block_hash: "".to_string() })
    );
    assert_eq!(
        chain.block_at(2),
        Ok(Block { sequence: 2, hash: "B2".to_string(), previous_block_hash: "G".to_string() })
    );
    assert_eq!(
        chain.block_at(3),
        Ok(Block { sequence: 3, hash: "B3".to_string(), previous_block_hash: "B2".to_string() })
    );
}

#[test]
fn block_that_the_chain_does_not_have_is_not_found() {
    let chain = chain_of(&["G", "B2", "B3"]);
    assert_eq!(chain.block_at(0), Err(OreoError::NotFound));
    assert_eq!(chain.block_at(4), Err(OreoError::NotFound));
    assert_eq!(chain.block_at(-1), Err(OreoError::NotFound));
    assert_eq!(chain.block_at(i64::MAX), Err(OreoError::NotFound));
    assert_eq!(chain.block_at(i64::MIN), Err(OreoError::NotFound));
}

#[test]
fn cut_back_takes_the_blocks_above_a_sequence() {
    let mut chain = chain_of(&["G", "B2", "B3", "B4"]);
    chain.cut_back(9);
    assert_eq!(chain.head(), 4);
    chain.cut_back(4);
    assert_eq!(chain.head(), 4);
    chain.cut_back(2);
    assert_eq!(chain.head(), 2);
    assert_eq!(chain.block_at(2).unwrap().hash, "B2");
    assert_eq!(chain.block_at(3), Err(OreoError::NotFound));
    assert!(chain.extend("C3".to_string()));
    assert_eq!(
        chain.block_at(3),
        Ok(Block { sequence: 3, hash: "C3".to_string(), previous_block_hash: "B2".to_string() })
    );
    chain.cut_back(0);
    assert_eq!(chain.head(), 1);
    assert_eq!(chain.block_at(1).unwrap().hash, "G");
    chain.cut_back(i64::MIN);
    assert_eq!(chain.head(), 1);
}

#[test]
fn report_carries_the_block_to_an_address() {
    let block = Block { sequence: 3, hash: "B3".to_string(), previous_block_hash: "B2".to_string() };
    assert_eq!(
        report_for("alice", &block),
        Report {
            address: "alice".to_string(),
            sequence: 3,
            hash: "B3".to_string(),
            parent_hash: "B2".to_string()
        }
    );
}

#[test]
fn genesis_hash_of_another_network_is_fatal() {
    let chain = chain_of(&["G", "B2"]);
    let latest = chain.latest_block();
    assert_eq!(check_genesis("G", &latest), Ok(()));
    assert_eq!(check_genesis("g", &latest), Err(OreoError::Fatal));
    assert_eq!(check_genesis("", &latest), Err(OreoError::Fatal));
    assert_eq!(check_genesis("B2", &latest), Err(OreoError::Fatal));
}

#[test]
fn unflagged_checkpoints_stay_on_the_chain_while_it_is_scanned() {
    let chain = chain_of(&["G", "B2", "B3", "B4", "B5", "B6", "B7"]);
    let mut ledger = Ledger::new();
    assert!(ledger.save(account("alice", 2, "B2"), 0).is_ok());
    assert!(ledger.save(account("bob", 4, "B4"), 0).is_ok());
    assert!(ledger.save(account("carol", 7, "B7"), 0).is_ok());
    assert_checkpoints_on_chain(&ledger, &chain);
    let deliveries = [
        ("alice", 5),
        ("bob", 7),
        ("alice", 3),
        ("bob", 5),
        ("alice", 7),
        ("carol", 7),
        ("alice", 4),
        ("bob", 6),
        ("alice", 6),
        ("alice", 6),
        ("bob", 3),
    ];
    for (address, sequence) in deliveries {
        let block = chain.block_at(sequence).unwrap();
        let _ = apply_report(&mut ledger, &report_for(address, &block));
        assert_checkpoints_on_chain(&ledger, &chain);
    }
    for address in ["alice", "bob", "carol"] {
        let a = ledger.get(address).unwrap();
        assert_eq!((a.head, a.hash.as_str(), a.need_scan), (7, "B7", false));
    }
}

#[test]
fn unflagged_checkpoints_stay_on_the_chain_across_a_reorganisation() {
    let mut chain = chain_of(&["G", "B2", "B3", "B4", "B5"]);
    let mut ledger = Ledger::new();
    assert!(ledger.save(account("alice", 2, "B2"), 0).is_ok());
    for s in 3..6 {
        let block = chain.block_at(s).unwrap();
        assert_eq!(apply_report(&mut ledger, &report_for("alice", &block)), Ok(Outcome::Extended));
    }
    assert_checkpoints_on_chain(&ledger, &chain);
    // the node replaces blocks 5 and above
    chain.cut_back(4);
    assert!(chain.extend("C5".to_string()));
    assert!(chain.extend("C6".to_string()));
    let block = chain.block_at(5).unwrap();
    assert_eq!(apply_report(&mut ledger, &report_for("alice", &block)), Ok(Outcome::Rewound));
    let a = ledger.get("alice").unwrap();
    assert_eq!((a.head, a.hash.as_str(), a.need_scan), (4, "B4", true));
    assert_checkpoints_on_chain(&ledger, &chain);
    for s in 5..7 {
        let block = chain.block_at(s).unwrap();
        assert_eq!(apply_report(&mut ledger, &report_for("alice", &block)), Ok(Outcome::Extended));
    }
    let a = ledger.get("alice").unwrap();
    assert_eq!((a.head, a.hash.as_str(), a.need_scan), (6, "C6", true));
    assert_eq!(chain.block_at(a.head).unwrap().hash, a.hash);
}
