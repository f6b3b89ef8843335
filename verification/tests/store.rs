use trana::model::{BanVote, Body, PolicyProposal, Post, Vote};
use trana::store::Store;
use trana::table::Table;
use trana::{Record, SortBy};

fn post_rec(author: &str, t: u64) -> Record {
    Record::new(
        author,
        t,
        Body::Post(Post {
            board: "b".to_string(),
            parent: None,
            title: Some("t".to_string()),
            body: "x".to_string(),
            media: vec![],
        }),
    )
    .unwrap()
}

#[test]
fn ingest_persists_and_dedupes() {
    let mut store = Store::new();
    let r = post_rec(&"aa".repeat(32), 1);
    assert!(store.ingest(&r).unwrap());
    assert!(!store.ingest(&r).unwrap(), "duplicate is not re-applied");
    assert_eq!(store.len(), 1);
}

#[test]
fn reopen_replays_log() {
    let mut log: Vec<Option<Record>> = vec![];
    {
        let mut store = Store::new();
        for r in [post_rec(&"aa".repeat(32), 1), post_rec(&"aa".repeat(32), 2)] {
            // What is newly applied is appended to the log.
            if store.ingest(&r).unwrap() {
                log.push(Some(r));
            }
        }
    }
    // Reopen: the two records must come back from the log.
    let (store, replayed) = Store::open(&log);
    assert_eq!(replayed, 2);
    assert_eq!(store.len(), 2);
    assert_eq!(store.threads("b", SortBy::New, 10, &Table::new()).len(), 2);
}

#[test]
fn invalid_record_is_rejected() {
    let mut store = Store::new();
    let mut r = post_rec(&"aa".repeat(32), 1);
    r.id = "deadbeef".to_string(); // corrupt the content address
    assert!(store.ingest(&r).is_err());
    assert!(store.is_empty());
}

#[test]
fn a_log_is_replayed_without_its_damaged_lines() {
    let good = post_rec(&"aa".repeat(32), 1);
    let mut bad = post_rec(&"aa".repeat(32), 2);
    bad.id = "deadbeef".to_string();
    let (mut store, replayed) = Store::open(&vec![None, Some(bad), Some(good.clone()), None, Some(good)]);
    assert_eq!((store.len(), replayed), (1, 1));
    assert!(store.replay(&post_rec(&"aa".repeat(32), 3)));
    assert!(!store.replay(&post_rec("nobody", 3)));
}

#[test]
fn the_store_answers_queries() {
    let author = "aa".repeat(32);
    let voter = "bb".repeat(32);
    let root = post_rec(&author, 1);
    let proposal = PolicyProposal { board: Some("b".to_string()), title: "rules".to_string(), body: "be kind".to_string() };
    let ban = BanVote { board: "b".to_string(), target: author.clone(), support: false, reason: "keep".to_string() };
    let asked = Record::new(&voter, 2, Body::PolicyProposal(proposal)).unwrap();
    let log = vec![
        Some(root.clone()),
        Some(asked.clone()),
        Some(Record::new(&voter, 3, Body::BanVote(ban)).unwrap()),
        Some(Record::new(&voter, 4, Body::Vote(Vote { target: root.id.clone(), value: 1 })).unwrap()),
    ];
    let (store, replayed) = Store::open(&log);
    assert_eq!(replayed, 4);
    let none: Table<i64> = Table::new();

    assert_eq!(store.post(&root.id).unwrap().score, 1);
    assert!(store.post("missing").is_none());
    assert_eq!(store.threads("b", SortBy::Top, 0, &none).len(), 0);
    assert_eq!(store.comments(&root.id, SortBy::New, &none).len(), 0);
    assert_eq!(store.all_feed(SortBy::New, 10, &none)[0].id, root.id);
    assert_eq!(store.home_feed(&voter, SortBy::New, 10, &none).len(), 0);
    assert_eq!(store.social(&author).post_score, 1);
    assert!(store.profile(&author).is_none());
    assert!(store.media(&root.id).is_none());
    assert!(store.stream(&root.id).is_none());
    assert_eq!(store.live_streams().len(), 0);
    assert_eq!(store.boards().len(), 0);
    assert_eq!(store.board("b").policy.ban_quorum, store.board_policy("b").ban_quorum);
    let standing = store.ban_standing("b", &author);
    assert_eq!((standing.support, standing.oppose, standing.banned_raw), (0, 1, false));
    assert_eq!(store.ban_votes_raw("b", &author), vec![(voter.clone(), false)]);
    assert_eq!(store.proposal(&asked.id).unwrap().title, "rules");
    assert_eq!(store.proposals(Some("b")).len(), 1);
    assert_eq!(store.proposals(Some("c")).len(), 0);
    assert!(store.document(&root.id).is_none() && store.document_latest(&root.id).is_none());
    assert!(store.document_history(&root.id).is_empty() && store.documents_by(&author).is_empty());
    assert!(store.backlinks(&root.id).is_empty());
    assert!(store.document_diff(&root.id, &root.id).is_empty());
}
