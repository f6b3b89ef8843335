use trana::ballot::{Ballot, Ledger};
use trana::order::{by_time, ranked, RankKey};
use trana::stamp::precedes;
use trana::table::Table;
use trana::text::{chars_of, contains, same_text, sorts_before};

#[test]
fn tables_keep_the_order_of_insertion() {
    let mut t: Table<u64> = Table::new();
    t.insert("b", 1);
    t.insert("a", 2);
    t.insert("b", 3);
    assert_eq!(t.len(), 2);
    assert_eq!((t.key_at(0).as_str(), *t.val_at(0)), ("b", 3));
    assert_eq!((t.key_at(1).as_str(), *t.val_at(1)), ("a", 2));
    assert!(t.contains("a") && !t.contains("c"));
    assert!(t.get("c").is_none());
    *t.get_mut("a").unwrap() += 5;
    assert_eq!(t.get("a"), Some(&7));
    assert!(t.get_mut("c").is_none());
}

#[test]
fn ballots_hold_the_latest_mark_of_each_voter() {
    let mut b = Ballot::new();
    b.cast("v", 1, 5, "m");
    b.cast("w", -1, 5, "m");
    assert_eq!((b.ups(), b.downs(), b.len()), (1, 1, 2));
    b.cast("v", -1, 4, "z");
    assert_eq!((b.ups(), b.downs()), (1, 1), "an older mark is ignored");
    b.cast("v", -1, 5, "a");
    assert_eq!((b.ups(), b.downs()), (1, 1), "of marks of one time the larger id counts");
    b.cast("v", -1, 5, "n");
    assert_eq!((b.ups(), b.downs()), (0, 2), "of marks of one time the larger id counts");
    b.cast("v", 0, 6, "a");
    assert_eq!((b.ups(), b.downs(), b.len()), (0, 1, 2));
    assert!(b.holds("w", -1) && !b.holds("w", 1) && b.holds("v", 0) && !b.holds("x", 0));
    assert_eq!(b.entry(0).0, "v");
    assert_eq!((b.entry(1).1.at, b.entry(1).1.id.as_str()), (5, "m"));
}

#[test]
fn ledgers_keep_a_ballot_for_each_subject() {
    let mut l = Ledger::new();
    l.cast("s", "v", 1, 1, "a");
    l.cast("t", "v", -1, 1, "b");
    l.cast("s", "w", 1, 1, "c");
    assert_eq!(l.len(), 2);
    assert_eq!((l.tally("s"), l.tally("t"), l.tally("u")), ((2, 0), (0, 1), (0, 0)));
    assert!(l.get("s").is_some() && l.get("u").is_none());
    assert_eq!(l.entry(1).0, "t");
}

#[test]
fn ranking_goes_by_key_then_time_then_id() {
    let r = |key: i64, at: u64, id: &str| RankKey { key, at, id: id.to_string() };
    let ranks = vec![r(1, 1, ""), r(2, 1, ""), r(1, 2, ""), r(2, 1, ""), r(-5, 9, "")];
    assert_eq!(ranked(&ranks), vec![1, 3, 2, 0, 4], "one rank keeps its order");
    assert_eq!(ranked(&vec![r(1, 1, "c"), r(1, 1, "a"), r(1, 1, "b")]), vec![1, 2, 0]);
    assert_eq!(ranked(&vec![]), Vec::<usize>::new());
    let ids = |names: &[&str]| names.iter().map(|n| n.to_string()).collect::<Vec<_>>();
    assert_eq!(by_time(&vec![3, 5, 5, 1], &ids(&["a", "c", "b", "d"])), vec![2, 1, 0, 3]);
}

#[test]
fn stamps_go_by_time_then_id() {
    assert!(precedes(1, "z", 2, "a") && !precedes(2, "a", 1, "z"));
    assert!(precedes(1, "a", 1, "b") && !precedes(1, "b", 1, "a"));
    assert!(!precedes(1, "a", 1, "a"));
}

#[test]
fn lists_are_searched_for_texts() {
    let list = vec!["a".to_string(), "b".to_string()];
    assert!(contains(&list, "b") && !contains(&list, "c") && !contains(&vec![], ""));
}

#[test]
fn texts_compare_by_their_bytes() {
    assert_eq!(chars_of("a\u{fc}"), vec!['a', '\u{fc}']);
    assert!(same_text("a", "a") && !same_text("a", "b"));
    let all = ["", "A", "Z", "a", "aa", "ab", "b", "\u{fc}", "\u{ffff}", "\u{10000}"];
    for x in all {
        for y in all {
            assert_eq!(sorts_before(x, y), x < y, "{x} < {y}");
        }
    }
}
