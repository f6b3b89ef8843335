use trana::diff::DiffOp;
use trana::dispatch::{answer, dispatch, Receipt, Request, Step};
use trana::double::Double;
use trana::engine;
use trana::engine::Admission;
use trana::extra::Extra;
use trana::feed::{signals, Signals};
use trana::model::{BanVote, BoardCreate, BoardPolicy, Body, DeviceLink, Document, Follow, Post, Profile, StreamKind, Vote};
use trana::proto::{
    self, BacklinksReq, BanStandingReq, BanVoteReq, BoardGetReq, BoardPutReq, CommentsReq, DeviceLinkReq, DocDiffReq, DocGetReq, DocKeyReq,
    DocPutReq, DocsByReq, FeedReq, FollowReq,
    KarmaReq, MediaGetReq, PolicyProposeReq, PolicyVoteReq, PostCreateReq, PostGetReq, ProfileGetReq, ProfilePutReq,
    ProposalGetReq, ProposalsReq, ReplicateReq, StreamAppendReq, StreamEndReq, StreamGetReq, StreamStartReq,
    ThreadsReq, VoteReq,
};
use trana::table::Table;
use trana::{Record, State};

fn node(n: u8) -> String {
    hex::encode([n; 32])
}

fn text(s: &str) -> String {
    s.to_string()
}

fn rec(author: u8, t: u64, body: Body) -> Record {
    Record::new(&node(author), t, body).unwrap()
}

fn post(author: u8, t: u64, board: &str, parent: Option<&str>) -> Record {
    let post =
        Post { board: text(board), parent: parent.map(text), title: None, body: text("x"), media: vec![] };
    rec(author, t, Body::Post(post))
}

fn vote(author: u8, t: u64, target: &str, value: i8) -> Record {
    rec(author, t, Body::Vote(Vote { target: text(target), value }))
}

fn link(device: u8, t: u64, owner: u8, active: bool) -> Record {
    rec(device, t, Body::DeviceLink(DeviceLink { owner: node(owner), active }))
}

fn folded(records: &[Record]) -> State {
    let mut s = State::new();
    for r in records {
        s.apply(r);
    }
    s
}

fn run(s: &State, author: u8, req: Request) -> Step {
    dispatch(s, &node(author), req, &Table::new())
}

#[test]
fn reads_are_answered_from_the_read_model() {
    let root = post(1, 1, "dev", None);
    let reply = post(2, 2, "dev", Some(&root.id));
    let s = folded(&[root.clone(), reply.clone(), vote(3, 3, &root.id, 1)]);
    match run(&s, 9, Request::PostGet(PostGetReq { id: root.id.clone() })) {
        Step::Post { post: Some(v) } => assert_eq!((v.score, v.reply_count), (1, 1)),
        _ => panic!("expected a post"),
    }
    let threads = ThreadsReq { board: text("dev"), sort: text("new"), limit: 10 };
    match run(&s, 9, Request::Threads(threads)) {
        Step::Posts { posts } => assert_eq!(posts[0].id, root.id),
        _ => panic!("expected posts"),
    }
    match run(&s, 9, Request::Comments(CommentsReq { root: root.id.clone(), sort: text("new") })) {
        Step::Posts { posts } => assert_eq!(posts[0].id, reply.id),
        _ => panic!("expected posts"),
    }
    let feed = FeedReq { scope: text("all"), board: None, viewer: None, sort: text("new"), limit: 10 };
    assert!(matches!(run(&s, 9, Request::Feed(feed)), Step::Posts { posts } if posts.len() == 1));
    let none = Request::MediaGet(MediaGetReq { media_id: text("m") });
    assert!(matches!(run(&s, 9, none), Step::Media { media: None }));
    assert!(matches!(run(&s, 9, Request::StreamsLive), Step::Streams { streams } if streams.is_empty()));
    assert!(matches!(run(&s, 9, Request::StreamGet(StreamGetReq { id: text("s") })), Step::Stream { stream: None }));
    assert!(matches!(run(&s, 9, Request::Boards), Step::Boards { boards } if boards.is_empty()));
    let board = Request::BoardGet(BoardGetReq { board: text("dev") });
    assert!(matches!(run(&s, 9, board), Step::Board { board } if board.policy.ban_quorum == 10));
    let all = Request::Proposals(ProposalsReq { board: None });
    assert!(matches!(run(&s, 9, all), Step::Proposals { proposals } if proposals.is_empty()));
    let one = Request::ProposalGet(ProposalGetReq { id: text("p") });
    assert!(matches!(run(&s, 9, one), Step::Proposal { proposal: None }));
}

#[test]
fn writes_lead_to_plans() {
    let s = State::new();
    let open = |req: Request, kind: &str, receipt: Receipt| match run(&s, 1, req) {
        Step::Write { admission, plan, receipt: r } => {
            assert!(matches!(admission, Admission::Open));
            assert_eq!(plan.body.kind(), kind);
            assert!(r == receipt);
        }
        _ => panic!("expected a write"),
    };
    let profile = ProfilePutReq {
        handle: None,
        display_name: text("n"),
        bio: text(""),
        avatar: None,
        links: vec![],
        devices: vec![],
    };
    open(Request::ProfilePut(profile), "profile", Receipt::Id);
    let create = PostCreateReq { board: text("b"), parent: None, title: None, body: text("x"), media: vec![] };
    open(Request::PostCreate(create), "post", Receipt::Id);
    open(Request::Vote(VoteReq { target: text("t"), value: 1 }), "vote", Receipt::Done);
    open(Request::Follow(FollowReq { followee: text("f"), active: true }), "follow", Receipt::Done);
    let start =
        StreamStartReq { title: text("t"), kind: StreamKind::Video, board: None, thumbnail: None, extra: Extra::new() };
    open(Request::StreamStart(start), "stream_start", Receipt::Id);
    let append = StreamAppendReq { stream: text("s"), seq: 0, object_cid: text("c"), duration_ms: 1, replicas: 0 };
    open(Request::StreamAppend(append), "stream_segment", Receipt::Id);
    open(Request::StreamEnd(StreamEndReq { stream: text("s"), recording_cid: None }), "stream_end", Receipt::Done);
    let put = BoardPutReq { board: text("b"), title: text(""), description: text(""), policy: BoardPolicy::default() };
    open(Request::BoardPut(put), "board_create", Receipt::Id);
    let ban = BanVoteReq { board: text("b"), target: text("t"), support: true, reason: text("") };
    open(Request::BanVote(ban), "ban_vote", Receipt::Done);
    let propose = PolicyProposeReq { board: None, title: text("t"), body: text("b") };
    open(Request::PolicyPropose(propose), "policy_proposal", Receipt::Id);
    open(Request::PolicyVote(PolicyVoteReq { proposal: text("p"), support: true }), "policy_vote", Receipt::Done);
    let doc = DocPutReq {
        title: text("t"),
        body: text("b"),
        file: None,
        refs: vec![],
        board: None,
        series: None,
        prev: None,
    };
    open(Request::DocPut(doc), "document", Receipt::Id);
    open(Request::DeviceLink(DeviceLinkReq { owner: text("o"), active: true }), "device_link", Receipt::Done);
    let req = ReplicateReq { record: post(1, 1, "b", None), object_cids: vec![] };
    assert!(matches!(run(&s, 1, Request::Replicate(req)), Step::Replicate { .. }));
}

#[test]
fn banned_authors_are_turned_away() {
    let policy = BoardPolicy {
        grace_secs: 0,
        ban_support: Double { bits: (0.5f64).to_bits() },
        ban_quorum: 1,
        min_trust_to_post: Double { bits: 0 },
        min_trust_to_vote: Double { bits: 0 },
    };
    let board = BoardCreate { board: text("dev"), title: text("t"), description: text(""), policy };
    let ban = BanVote { board: text("dev"), target: node(7), support: true, reason: text("") };
    let liked = post(2, 3, "dev", None);
    let s = folded(&[
        rec(1, 1, Body::BoardCreate(board)),
        rec(2, 2, Body::BanVote(ban)),
        liked.clone(),
        vote(3, 4, &liked.id, 1),
    ]);
    let create = || PostCreateReq { board: text("dev"), parent: None, title: None, body: text("x"), media: vec![] };
    let step = run(&s, 7, Request::PostCreate(create()));
    assert!(matches!(step, Step::Write { admission: Admission::Banned { .. }, .. }));
    let step = run(&s, 8, Request::PostCreate(create()));
    assert!(matches!(step, Step::Write { admission: Admission::Open, .. }));
    // The standing comes with each voter's karma.
    match run(&s, 9, Request::BanStanding(BanStandingReq { board: text("dev"), target: node(7) })) {
        Step::Standing { standing, ballots, policy } => {
            assert_eq!((standing.support, standing.oppose, standing.banned_raw), (1, 0, true));
            assert_eq!(ballots.len(), 1);
            assert_eq!((ballots[0].voter.as_str(), ballots[0].support, ballots[0].karma), (node(2).as_str(), true, 1));
            assert_eq!(policy.ban_quorum, 1);
        }
        _ => panic!("expected a standing"),
    }
}

fn with_devices(devices: Vec<String>) -> Body {
    let mut p = Profile::default();
    p.devices = devices;
    Body::Profile(p)
}

#[test]
fn only_devices_that_point_back_are_rolled_up() {
    let profile = rec(1, 1, with_devices(vec![node(2), node(3), node(4), node(1)]));
    let devices = |s: &State| match run(s, 9, Request::Karma(KarmaReq { node_id: node(1) })) {
        Step::Karma { devices, .. } => devices,
        _ => panic!("expected karma"),
    };
    // Named, but nobody points back.
    assert_eq!(devices(&folded(&[profile.clone()])), vec![node(1)]);
    // One points back, one points elsewhere, one has taken its link back.
    let s = folded(&[
        profile.clone(),
        link(2, 2, 1, true),
        link(3, 2, 9, true),
        link(4, 3, 1, false),
        link(4, 2, 1, true),
    ]);
    assert_eq!(devices(&s), vec![node(1), node(2)]);
    assert_eq!(s.device_owner(&node(2)), Some(node(1)));
    assert_eq!(s.device_owner(&node(3)), Some(node(9)));
    assert_eq!(s.device_owner(&node(4)), None);
    assert_eq!(s.device_owner(&node(8)), None);
    assert_eq!(s.linked_devices(&node(1)), vec![node(2)]);
    // A device that points at an owner who does not name it is not bound.
    let s = folded(&[link(2, 2, 1, true)]);
    assert_eq!(devices(&s), vec![node(1)]);
    match run(&s, 9, Request::ProfileGet(ProfileGetReq { node_id: node(1) })) {
        Step::Profile { profile, social, devices } => {
            assert!(profile.is_none());
            assert_eq!((social.posts, devices.len()), (0, 1));
        }
        _ => panic!("expected a profile"),
    }
}

#[test]
fn the_latest_link_wins_in_any_order() {
    let old = link(2, 1, 1, true);
    let new = link(2, 5, 3, true);
    for order in [[old.clone(), new.clone()], [new, old]] {
        assert_eq!(folded(&order).device_owner(&node(2)), Some(node(3)));
    }
}

#[test]
fn streams_that_last_too_long_are_told_apart() {
    let start = trana::model::StreamStart {
        title: text("t"),
        kind: StreamKind::Video,
        board: None,
        thumbnail: None,
        extra: Extra::new(),
    };
    let start = rec(1, 1, Body::StreamStart(start));
    let seg = |seq: u64| {
        let s = trana::model::StreamSegment {
            stream: start.id.clone(),
            seq,
            object_cid: text("c"),
            duration_ms: u64::MAX,
        };
        rec(1, 2 + seq, Body::StreamSegment(s))
    };
    let s = folded(&[start.clone(), seg(0)]);
    let get = || Request::StreamGet(StreamGetReq { id: start.id.clone() });
    assert!(matches!(run(&s, 9, get()), Step::Stream { stream: Some(_) }));
    let s = folded(&[start.clone(), seg(0), seg(1)]);
    assert!(matches!(run(&s, 9, get()), Step::TooLong));
    assert!(matches!(run(&s, 9, Request::StreamsLive), Step::TooLong));
}

#[test]
fn signals_are_the_whole_numbers_behind_a_score() {
    let r = post(1, 10_000, "dev", None);
    let s = folded(&[r.clone(), vote(2, 1, &r.id, 1), vote(3, 1, &r.id, 1), vote(4, 1, &r.id, -1)]);
    let v = s.post(&r.id).unwrap();
    let got = signals(&v, 70_999, 60);
    let want = Signals {
        age_ms: 60_999,
        age_secs: 60,
        engagement: 3,
        in_grace: true,
        approval: 1,
        split: Some((1, 2)),
    };
    assert_eq!(got, want);
    assert!(!signals(&v, 71_000, 60).in_grace);
    assert!(!signals(&v, 70_999, 0).in_grace, "a board without a window gives none");
    let future = signals(&v, 5, 60);
    assert_eq!((future.age_ms, future.in_grace), (0, true));
}

#[test]
fn converged_nodes_show_the_same_listings() {
    let a = post(1, 1, "dev", None);
    let b = post(2, 2, "dev", None);
    let c = post(3, 3, "dev", Some(&a.id));
    let d = post(4, 4, "dev", Some(&a.id));
    let f = rec(5, 5, Body::Follow(Follow { followee: node(1), active: true }));
    let one = folded(&[a.clone(), b.clone(), c.clone(), d.clone(), f.clone()]);
    let two = folded(&[f, d, c, b, a.clone()]);
    let ids = |s: &State, req: Request| match run(s, 9, req) {
        Step::Posts { posts } => posts.iter().map(|v| v.id.clone()).collect::<Vec<_>>(),
        _ => panic!("expected posts"),
    };
    let threads = || Request::Threads(ThreadsReq { board: text("dev"), sort: text("top"), limit: 9 });
    assert_eq!(ids(&one, threads()), ids(&two, threads()));
    let comments = || Request::Comments(CommentsReq { root: a.id.clone(), sort: text("new") });
    assert_eq!(ids(&one, comments()), ids(&two, comments()));
    let feed = |scope: &str| {
        Request::Feed(FeedReq {
            scope: text(scope),
            board: None,
            viewer: Some(node(5)),
            sort: text("new"),
            limit: 9,
        })
    };
    assert_eq!(ids(&one, feed("all")), ids(&two, feed("all")));
    assert_eq!(ids(&one, feed("home")), vec![a.id.clone()]);
    assert_eq!(ids(&two, feed("home")), vec![a.id.clone()]);
}

#[test]
fn a_home_feed_is_ones_own_unless_it_says_otherwise() {
    use_viewer("home", None, Some("me"));
    use_viewer("home", Some("you"), Some("you"));
    use_viewer("all", None, None);
    use_viewer("all", Some("you"), Some("you"));
    assert_eq!(engine::capped_limit(7), 7);
}

fn use_viewer(scope: &str, viewer: Option<&str>, want: Option<&str>) {
    assert_eq!(trana::client::feed_viewer(scope, viewer.map(text), "me").as_deref(), want);
}

#[test]
fn documents_are_answered_from_the_read_model() {
    let doc = |t: u64, body: &str, series: Option<&str>| {
        let document = Document {
            title: text("d"),
            body: text(body),
            file: None,
            refs: vec![],
            board: None,
            series: series.map(text),
            prev: None,
        };
        rec(1, t, Body::Document(document))
    };
    let first = doc(1, "one", None);
    let second = doc(2, "see trana://post/p.", Some(&first.id));
    let mut s = State::new();
    s.apply(&second);
    s.apply(&first);
    let run = |req: Request| dispatch(&s, &node(1), req, &Table::new());
    match run(Request::DocGet(DocGetReq { id: first.id.clone() })) {
        Step::Document { document } => assert_eq!(document.unwrap().document.body, "one"),
        _ => panic!("no document"),
    }
    match run(Request::DocLatest(DocKeyReq { key: first.id.clone() })) {
        Step::Document { document } => assert_eq!(document.unwrap().id, second.id),
        _ => panic!("no document"),
    }
    match run(Request::DocHistory(DocKeyReq { key: second.id.clone() })) {
        Step::Documents { documents } => assert_eq!(documents[0].id, first.id),
        _ => panic!("no documents"),
    }
    match run(Request::DocsBy(DocsByReq { author: node(1) })) {
        Step::Documents { documents } => assert_eq!(documents[0].id, second.id),
        _ => panic!("no documents"),
    }
    match run(Request::DocDiff(DocDiffReq { from: first.id.clone(), to: second.id.clone() })) {
        Step::Diff { diff } => {
            assert_eq!(diff.iter().map(|l| (l.op, l.text.as_str())).collect::<Vec<_>>(), vec![
                (DiffOp::Removed, "one"),
                (DiffOp::Added, "see trana://post/p."),
            ]);
        }
        _ => panic!("no diff"),
    }
    match run(Request::Backlinks(BacklinksReq { id: text("p") })) {
        Step::Uris { uris } => assert_eq!(uris, vec![format!("trana://document/{}", second.id)]),
        _ => panic!("no uris"),
    }
}

#[test]
fn a_body_that_cannot_be_read_is_refused() {
    let s = State::new();
    let refused = |topic: &str| match answer(&s, &node(1), topic, Err(text("why")), &Table::new()) {
        Ok(_) => panic!("a step"),
        Err(envelope) => envelope,
    };
    assert_eq!(refused(proto::T_POST_CREATE).outcome().unwrap_err(), "bad request body: why");
    assert_eq!(refused("nope").outcome().unwrap_err(), "unknown topic: nope");
    assert!(refused(proto::T_REPLICATE).ok);
    let body = Ok(Request::Boards);
    assert!(matches!(answer(&s, &node(1), proto::T_BOARDS, body, &Table::new()), Ok(Step::Boards { .. })));
}
