use trana::double::Double;
use trana::engine;
use trana::engine::Admission;
use trana::governance::bans;
use trana::model::{BanVote, BoardCreate, BoardPolicy, Body, PolicyProposal, PolicyVote, Post};
use trana::table::Table;
use trana::{Record, SortBy, State};

fn double(x: f64) -> Double {
    Double { bits: x.to_bits() }
}

fn node(n: u8) -> String {
    hex::encode([n; 32])
}

fn policy(support: f64, quorum: u32) -> BoardPolicy {
    BoardPolicy {
        grace_secs: 60,
        ban_support: double(support),
        ban_quorum: quorum,
        min_trust_to_post: double(0.0),
        min_trust_to_vote: double(0.0),
    }
}

fn board(author: &str, t: u64, name: &str, title: &str, policy: BoardPolicy) -> Record {
    Record::new(
        author,
        t,
        Body::BoardCreate(BoardCreate {
            board: name.to_string(),
            title: title.to_string(),
            description: "d".to_string(),
            policy,
        }),
    )
    .unwrap()
}

fn ban(voter: &str, t: u64, name: &str, target: &str, support: bool) -> Record {
    Record::new(
        voter,
        t,
        Body::BanVote(BanVote {
            board: name.to_string(),
            target: target.to_string(),
            support,
            reason: "r".to_string(),
        }),
    )
    .unwrap()
}

fn post(author: &str, t: u64, name: &str, parent: Option<&str>) -> Record {
    Record::new(
        author,
        t,
        Body::Post(Post {
            board: name.to_string(),
            parent: parent.map(|p| p.to_string()),
            title: None,
            body: "x".to_string(),
            media: vec![],
        }),
    )
    .unwrap()
}

#[test]
fn a_board_never_created_has_the_default_policy() {
    let s = State::new();
    let p = s.board_policy("nowhere");
    assert_eq!((p.grace_secs, p.ban_quorum), (6 * 3600, 10));
    assert_eq!(f64::from_bits(p.ban_support.bits), 0.66);
    assert_eq!(f64::from_bits(p.min_trust_to_post.bits), 0.0);
    let v = s.board("nowhere");
    assert_eq!((v.board.as_str(), v.title.as_str(), v.created_ms), ("nowhere", "", 0));
    assert!(s.boards().is_empty());
}

#[test]
fn the_first_claim_of_a_board_wins_in_any_order() {
    let early = board(&node(1), 5, "dev", "early", policy(0.5, 1));
    let late = board(&node(2), 9, "dev", "late", policy(0.9, 9));
    for order in [[&early, &late], [&late, &early]] {
        let mut s = State::new();
        for r in order {
            s.apply(r);
        }
        let v = s.board("dev");
        assert_eq!((v.title.as_str(), v.created_ms, v.policy.ban_quorum), ("early", 5, 1));
        assert_eq!(s.boards().len(), 1);
    }
    // Claims at the same time: the smaller id wins.
    let a = board(&node(3), 7, "tie", "a", policy(0.5, 1));
    let b = board(&node(4), 7, "tie", "b", policy(0.5, 2));
    let winner = if a.id < b.id { "a" } else { "b" };
    for order in [[&a, &b], [&b, &a]] {
        let mut s = State::new();
        for r in order {
            s.apply(r);
        }
        assert_eq!(s.board("tie").title, winner);
    }
}

#[test]
fn boards_are_listed_newest_first() {
    let mut s = State::new();
    s.apply(&board(&node(1), 5, "old", "o", policy(0.5, 1)));
    s.apply(&board(&node(1), 9, "new", "n", policy(0.5, 1)));
    let names = s.boards().iter().map(|b| b.board.clone()).collect::<Vec<_>>();
    assert_eq!(names, vec!["new", "old"]);
}

#[test]
fn a_ban_needs_quorum_and_support() {
    // No votes never ban.
    assert!(!bans(policy(0.0, 0), 0, 0));
    // Below quorum.
    assert!(!bans(policy(0.5, 3), 2, 0));
    assert!(bans(policy(0.5, 3), 3, 0));
    // Exactly the fraction is enough.
    assert!(bans(policy(0.5, 2), 1, 1));
    assert!(!bans(policy(0.5, 2), 1, 2));
    assert!(bans(policy(0.5, 2), 2, 1));
    // The fraction counts: two thirds reach 0.66 but not 0.67.
    assert!(bans(policy(0.66, 1), 2, 1));
    assert!(!bans(policy(0.67, 1), 2, 1));
    // A small fraction is enough where the board asks for no more.
    assert!(bans(policy(0.1, 1), 1, 3));
    // A fraction above one, or none at all, never bans.
    assert!(!bans(policy(1.5, 1), 9, 0));
    assert!(!bans(policy(f64::NAN, 1), 9, 0));
    assert!(bans(policy(-1.0, 1), 9, 0));
}

#[test]
fn one_of_two_reaches_half() {
    let mut s = State::new();
    s.apply(&board(&node(3), 1, "b", "", policy(0.5, 2)));
    s.apply(&ban(&node(1), 2, "b", "x", true));
    assert!(!s.is_banned_raw("b", "x"), "one voter is below the quorum");
    s.apply(&ban(&node(2), 2, "b", "x", false));
    let standing = s.ban_standing("b", "x");
    assert_eq!((standing.support, standing.oppose, standing.banned_raw), (1, 1, true));
    assert!(s.is_banned_raw("b", "x"));
}

#[test]
fn a_banned_author_is_hidden_and_refused() {
    let (author, other) = (node(1), node(2));
    let mut s = State::new();
    s.apply(&board(&other, 1, "dev", "t", policy(0.5, 2)));
    let mine = post(&author, 2, "dev", None);
    let theirs = post(&other, 3, "dev", None);
    let reply = post(&author, 4, "dev", Some(&theirs.id));
    let below = post(&other, 5, "dev", Some(&reply.id));
    for r in [&mine, &theirs, &reply, &below] {
        s.apply(r);
    }
    assert_eq!(s.threads("dev", SortBy::New, 10, &Table::new()).len(), 2);
    assert_eq!(s.comments(&theirs.id, SortBy::New, &Table::new()).len(), 2);
    assert!(matches!(s.may_post(&author, "dev"), Admission::Open));

    s.apply(&ban(&node(3), 6, "dev", &author, true));
    assert!(!s.is_banned_raw("dev", &author), "one vote is below quorum");
    s.apply(&ban(&node(4), 6, "dev", &author, true));
    assert!(s.is_banned_raw("dev", &author));
    assert!(!s.is_banned_raw("elsewhere", &author));

    let threads = s.threads("dev", SortBy::New, 10, &Table::new());
    assert_eq!(threads.iter().map(|v| v.id.clone()).collect::<Vec<_>>(), vec![theirs.id.clone()]);
    assert!(s.comments(&theirs.id, SortBy::New, &Table::new()).is_empty(), "hidden with what is below");
    assert_eq!(s.all_feed(SortBy::New, 10, &Table::new()).len(), 1);
    // The post itself can still be read by its id.
    assert!(s.post(&mine.id).is_some());

    match s.may_post(&author, "dev") {
        Admission::Banned { reason } => {
            assert_eq!(reason, format!("the community has banned {author} from board 'dev'"));
        }
        _ => panic!("expected a refusal"),
    }
    assert!(matches!(s.may_vote(&author, &theirs.id), Admission::Banned { .. }));
    assert!(matches!(s.may_vote_on_bans(&author, "dev"), Admission::Banned { .. }));
    assert!(matches!(s.may_publish(&author, &Some("dev".to_string())), Admission::Banned { .. }));
    assert!(matches!(s.may_publish(&author, &None), Admission::Open));
    assert!(matches!(s.may_vote(&author, "no post"), Admission::Open));
}

#[test]
fn the_latest_ban_vote_counts() {
    let target = node(1);
    let mut s = State::new();
    s.apply(&ban(&node(2), 5, "dev", &target, false));
    s.apply(&ban(&node(2), 4, "dev", &target, true));
    s.apply(&ban(&node(3), 4, "dev", &target, true));
    let standing = s.ban_standing("dev", &target);
    assert_eq!((standing.support, standing.oppose, standing.banned_raw), (1, 1, false));
    assert_eq!((standing.board.as_str(), standing.target.as_str()), ("dev", target.as_str()));
    let mut votes = s.ban_votes_raw("dev", &target);
    votes.sort();
    assert_eq!(votes, vec![(node(2), false), (node(3), true)]);
    assert!(s.ban_votes_raw("dev", "nobody").is_empty());
}

#[test]
fn trust_floors_ask_for_trust() {
    let mut p = policy(0.5, 1);
    p.min_trust_to_post = double(0.25);
    p.min_trust_to_vote = double(0.5);
    let mut s = State::new();
    s.apply(&board(&node(1), 1, "dev", "t", p));
    let theirs = post(&node(1), 2, "dev", None);
    s.apply(&theirs);
    match s.may_post(&node(2), "dev") {
        Admission::NeedsTrust { floor } => assert_eq!(f64::from_bits(floor.bits), 0.25),
        _ => panic!("expected a trust floor"),
    }
    match s.may_vote(&node(2), &theirs.id) {
        Admission::NeedsTrust { floor } => assert_eq!(f64::from_bits(floor.bits), 0.5),
        _ => panic!("expected a trust floor"),
    }
    assert!(engine::clears_floor(double(0.5), double(0.5)));
    assert!(!engine::clears_floor(double(0.49), double(0.5)));
    assert!(engine::clears_floor(double(f64::NAN), double(0.5)), "what compares with nothing is not below it");
}

#[test]
fn proposals_gather_votes() {
    let mut s = State::new();
    let p = Record::new(
        &node(1),
        1,
        Body::PolicyProposal(PolicyProposal {
            board: Some("dev".to_string()),
            title: "t".to_string(),
            body: "b".to_string(),
        }),
    )
    .unwrap();
    let q = Record::new(
        &node(1),
        2,
        Body::PolicyProposal(PolicyProposal { board: None, title: "g".to_string(), body: String::new() }),
    )
    .unwrap();
    let cast = |voter: u8, t: u64, support: bool| {
        Record::new(&node(voter), t, Body::PolicyVote(PolicyVote { proposal: p.id.clone(), support })).unwrap()
    };
    // Votes may come before what they are on.
    for r in [&cast(2, 3, true), &cast(3, 3, true), &cast(3, 4, false), &cast(3, 2, true), &p, &q] {
        s.apply(r);
    }
    let v = s.proposal(&p.id).unwrap();
    assert_eq!((v.favor, v.against, v.title.as_str()), (1, 1, "t"));
    assert!(s.proposal("none").is_none());
    let all = s.proposals(None).iter().map(|v| v.id.clone()).collect::<Vec<_>>();
    assert_eq!(all, vec![q.id.clone(), p.id.clone()]);
    let here = s.proposals(Some("dev")).iter().map(|v| v.id.clone()).collect::<Vec<_>>();
    assert_eq!(here, vec![p.id.clone()]);
    assert!(s.proposals(Some("elsewhere")).is_empty());
}

#[test]
fn comments_are_ranked_with_the_grace_of_their_board() {
    let mut s = State::new();
    s.apply(&board(&node(1), 1, "dev", "t", policy(0.5, 1)));
    let r = post(&node(1), 2, "dev", None);
    s.apply(&r);
    assert_eq!(s.comments_grace(&r.id), 60);
    assert_eq!(s.comments_grace("unknown"), 0);
    assert_eq!(trana::feed::default_grace(), 6 * 3600);
}
