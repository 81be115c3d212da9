use dservice::reconcile::Report;
use dservice::scheduler::Job;
use dservice::text::{before, same};

#[test]
fn same_compares_whole_texts() {
    assert!(same("", ""));
    assert!(same("abc", "abc"));
    assert!(same("fõø", "fõø"));
    assert!(!same("abc", "abd"));
    assert!(!same("abc", "ab"));
    assert!(!same("", "a"));
    assert!(!same("é", "e"));
}

#[test]
fn before_is_the_order_of_strings() {
    let words = ["", "A", "Z", "a", "aa", "ab", "b", "z", "é", "ÿ", "中", "😀"];
    for i in 0..words.len() {
        for j in 0..words.len() {
            assert_eq!(before(words[i], words[j]), words[i] < words[j]);
            assert_eq!(before(words[i], words[j]), i < j);
        }
    }
}

#[test]
fn prefix_stands_before_what_it_begins() {
    assert!(before("abc", "abcd"));
    assert!(!before("abcd", "abc"));
    assert!(!before("abc", "abc"));
    assert!(before("", "a"));
    assert!(!before("a", ""));
}

#[test]
fn copies_are_equal_to_what_they_copy() {
    let r = Report {
        address: "a".to_string(),
        sequence: 4,
        hash: "h".to_string(),
        parent_hash: "p".to_string(),
    };
    assert_eq!(r.clone(), r);
    let j = Job { address: "a".to_string(), from_sequence: 1, to_sequence: 2 };
    assert_eq!(j.clone(), j);
}
