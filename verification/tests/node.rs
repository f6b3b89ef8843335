use trana::auth::{self, Claim};
use trana::client::{self, CallOptions};
use trana::engine;
use trana::extra::Extra;
use trana::mime;
use trana::model::{Body, FileRef, MediaKind, Post};
use trana::proto::{
    self, BanVoteReq, BoardPutReq, DeviceLinkReq, DocPutReq, Envelope, FeedReq, FollowReq, MediaPutReq,
    PolicyProposeReq, PolicyVoteReq, PostCreateReq, ReplicateReq, StreamAppendReq, StreamEndReq, VoteReq,
};
use trana::record::{Record, RecordError};
use trana::replicate::{
    self, BroadcastEvent, BroadcastStage, Gossip, GossipAction, GossipEvent, Ingested, BACKOFF_CEILING_MS,
    BACKOFF_FLOOR_MS, DEFAULT_REPLICAS,
};
use trana::service::{self, Route};
use trana::store::Store;
use trana::table::Table;

fn text(s: &str) -> String {
    s.to_string()
}

fn post_body(board: &str) -> Body {
    Body::Post(Post { board: text(board), parent: None, title: None, body: text("x"), media: vec![] })
}

// ----- engine -----

#[test]
fn writes_plan_what_to_publish_and_place() {
    let media = MediaPutReq {
        kind: MediaKind::Image,
        object_cid: text("cid"),
        mime: text("image/png"),
        size: 4,
        title: text("t"),
        duration_ms: None,
        width: None,
        height: None,
        thumbnail: None,
        extra: Extra::new(),
        replicas: 0,
    };
    let plan = engine::media_put(media);
    assert_eq!((plan.body.kind(), plan.replicas), ("media", DEFAULT_REPLICAS));
    assert_eq!(plan.object_cids, vec!["cid"]);

    let append = StreamAppendReq { stream: text("s"), seq: 1, object_cid: text("seg"), duration_ms: 2, replicas: 7 };
    let plan = engine::stream_append(append);
    assert_eq!((plan.body.kind(), plan.replicas), ("stream_segment", 7));
    assert_eq!(plan.object_cids, vec!["seg"]);

    let plan = engine::stream_end(StreamEndReq { stream: text("s"), recording_cid: Some(text("rec")) });
    assert_eq!((plan.body.kind(), plan.replicas), ("stream_end", DEFAULT_REPLICAS));
    assert_eq!(plan.object_cids, vec!["rec"]);
    let plan = engine::stream_end(StreamEndReq { stream: text("s"), recording_cid: None });
    assert!(plan.object_cids.is_empty());

    let plan = engine::post_create(PostCreateReq {
        board: text("b"),
        parent: None,
        title: None,
        body: text("x"),
        media: vec![],
    });
    assert_eq!((plan.body.kind(), plan.replicas, plan.object_cids.len()), ("post", 0, 0));
    match engine::vote(VoteReq { target: text("t"), value: -1 }).body {
        Body::Vote(v) => assert_eq!((v.target.as_str(), v.value), ("t", -1)),
        _ => panic!("expected a vote"),
    }
    assert_eq!(engine::follow(FollowReq { followee: text("f"), active: true }).body.kind(), "follow");
    let put = BoardPutReq { board: text("b"), title: text("t"), description: text("d"), policy: Default::default() };
    assert_eq!(engine::board_put(put).body.kind(), "board_create");
    let ban = BanVoteReq { board: text("b"), target: text("t"), support: true, reason: text("r") };
    assert_eq!(engine::ban_vote(ban).body.kind(), "ban_vote");
    let propose = PolicyProposeReq { board: None, title: text("t"), body: text("b") };
    assert_eq!(engine::policy_propose(propose).body.kind(), "policy_proposal");
    assert_eq!(engine::policy_vote(PolicyVoteReq { proposal: text("p"), support: true }).body.kind(), "policy_vote");
    assert_eq!(engine::device_link(DeviceLinkReq { owner: text("o"), active: true }).body.kind(), "device_link");
}

#[test]
fn documents_place_their_file() {
    let doc = |file: Option<FileRef>| DocPutReq {
        title: text("t"),
        body: text("b"),
        file,
        refs: vec![],
        board: None,
        series: None,
        prev: None,
    };
    let plan = engine::document_put(doc(None));
    assert_eq!((plan.body.kind(), plan.replicas, plan.object_cids.len()), ("document", 0, 0));
    let file = FileRef { object_cid: text("c"), mime: text("m"), size: 1, name: text("n") };
    let plan = engine::document_put(doc(Some(file)));
    assert_eq!((plan.replicas, plan.object_cids), (DEFAULT_REPLICAS, vec![text("c")]));
}

#[test]
fn writing_folds_the_record_in() {
    let mut store = Store::new();
    let author = "ab".repeat(32);
    let rec = engine::write(&mut store, &author, 5, post_body("dev")).unwrap();
    assert_eq!(rec.created_ms, 5);
    rec.verify().unwrap();
    assert!(store.state().post(&rec.id).is_some());
    assert!(matches!(engine::write(&mut store, "alice", 6, post_body("dev")), Err(RecordError::BadAuthor)));
    assert_eq!(store.len(), 1);
}

#[test]
fn limits_are_capped() {
    assert_eq!(engine::capped_limit(10), 10);
    assert_eq!(engine::capped_limit(500), 500);
    assert_eq!(engine::capped_limit(501), 500);
    assert_eq!(engine::capped_limit(usize::MAX), 500);
}

#[test]
fn feeds_go_by_scope() {
    let mut store = Store::new();
    let (a, b) = ("ab".repeat(32), "cd".repeat(32));
    let one = engine::write(&mut store, &a, 1, post_body("dev")).unwrap();
    let two = engine::write(&mut store, &b, 2, post_body("art")).unwrap();
    let plan = engine::follow(FollowReq { followee: a.clone(), active: true });
    engine::write(&mut store, &b, 3, plan.body).unwrap();
    let ids = |scope: &str, board: Option<&str>, viewer: Option<&str>, limit: usize| {
        let req = FeedReq {
            scope: text(scope),
            board: board.map(text),
            viewer: viewer.map(text),
            sort: text("NEW"),
            limit,
        };
        engine::feed(store.state(), &req, &Table::new()).iter().map(|v| v.id.clone()).collect::<Vec<_>>()
    };
    assert_eq!(ids("board", Some("dev"), None, 10), vec![one.id.clone()]);
    assert_eq!(ids("board", None, None, 10), Vec::<String>::new());
    assert_eq!(ids("home", None, Some(&b), 10), vec![one.id.clone()]);
    assert_eq!(ids("home", None, None, 10), Vec::<String>::new());
    assert_eq!(ids("all", None, None, 10), vec![two.id.clone(), one.id.clone()]);
    assert_eq!(ids("anything", None, None, 1), vec![two.id.clone()]);
}

#[test]
fn a_device_set_starts_with_the_node_and_names_none_twice() {
    let declared = vec![text("d1"), text("me"), text("d2"), text("d1")];
    assert_eq!(engine::device_set("me", Some(&declared)), vec!["me", "d1", "d2"]);
    assert_eq!(engine::device_set("me", None), vec!["me"]);
}

// ----- service -----

#[test]
fn every_topic_means_an_operation() {
    for t in proto::RPC_TOPICS {
        assert!(service::route(t) != Route::Unknown, "{t}");
    }
    assert!(service::route(proto::T_POST_CREATE) == Route::PostCreate);
    assert!(service::route(proto::T_STREAMS_LIVE) == Route::StreamsLive);
    assert!(service::route(proto::T_DEVICE_LINK) == Route::DeviceLink);
    assert!(service::route(proto::T_DOC_HISTORY) == Route::DocHistory);
    assert!(service::route("trana/nope/v1") == Route::Unknown);
    assert_eq!(proto::RPC_TOPICS.len(), 35);
    assert!(service::is_write(Route::Vote) && !service::is_write(Route::Karma));
    assert!(!service::is_write(Route::Replicate), "a replicated record has its own author");
}

#[test]
fn failures_are_answered() {
    let env = service::unknown_topic("x");
    assert_eq!((env.ok, env.error.as_deref(), env.data.as_str()), (false, Some("unknown topic: x"), "null"));
    let env = service::bad_request("oops");
    assert_eq!(env.outcome().unwrap_err(), "bad request body: oops");
    assert_eq!(service::refusal("x", "oops").outcome().unwrap_err(), "unknown topic: x");
    assert_eq!(service::refusal(proto::T_VOTE, "oops").outcome().unwrap_err(), "bad request body: oops");
    assert_eq!(service::refusal(proto::T_REPLICATE, "oops").outcome().unwrap(), "{\"ok\":false}");
    assert_eq!(service::reply(Ok(text("{}"))).outcome().unwrap(), "{}");
    assert_eq!(service::reply(Err(text("no"))).outcome().unwrap_err(), "no");
}

// ----- identity -----

#[test]
fn nobody_acts_as_another_without_proof() {
    let own = auth::claim(None, None);
    assert_eq!(auth::resolve_author("me", &own, false).as_deref(), Some("me"));
    let own = auth::claim(None, Some(text("token")));
    assert!(matches!(own, Claim::Own));
    let bare = auth::claim(Some(text("you")), None);
    assert!(auth::resolve_author("me", &bare, true).is_none());
    let delegated = auth::claim(Some(text("you")), Some(text("token")));
    assert!(auth::resolve_author("me", &delegated, false).is_none());
    assert_eq!(auth::resolve_author("me", &delegated, true).as_deref(), Some("you"));
}

#[test]
fn node_ids_spell_32_bytes() {
    assert_eq!(auth::hex32(&"0f".repeat(32)).unwrap(), vec![0x0f; 32]);
    assert_eq!(auth::hex32(&"AB".repeat(32)).unwrap(), vec![0xab; 32]);
    assert!(auth::hex32(&"0f".repeat(31)).is_none());
    assert!(auth::hex32(&"0g".repeat(32)).is_none());
    assert!(auth::hex32("").is_none());
}

#[test]
fn capabilities_are_revoked_by_issuer_and_nonce() {
    let revoked = vec![("ab".repeat(32), 7u64)];
    assert!(auth::is_revoked(&revoked, &[0xab; 32], 7));
    assert!(!auth::is_revoked(&revoked, &[0xab; 32], 8));
    assert!(!auth::is_revoked(&revoked, &[0xac; 32], 7));
    assert!(!auth::is_revoked(&vec![], &[0xab; 32], 7));
}

// ----- replication -----

#[test]
fn replicas_are_the_first_peers_found() {
    let found = vec![text("a"), text("me"), text("b"), text("c")];
    assert_eq!(replicate::pick_replicas(found, "me", 2), vec!["a", "b"]);
    assert_eq!(replicate::pick_replicas(vec![text("me")], "me", 2), Vec::<String>::new());
    assert_eq!(replicate::replica_count(0), DEFAULT_REPLICAS);
    assert_eq!(replicate::replica_count(9), 9);
    assert_eq!(replicate::locate_count(3), 4);
}

#[test]
fn a_broadcast_goes_stage_by_stage() {
    let done = BroadcastEvent::Done { targets: 0 };
    let next = |s: BroadcastStage, e: BroadcastEvent, place: bool| replicate::next_broadcast_stage(s, e, place, 2);
    assert!(next(BroadcastStage::Encoding, BroadcastEvent::Failed, true) == BroadcastStage::Finished);
    assert!(next(BroadcastStage::Encoding, done, true) == BroadcastStage::Gossiping);
    assert!(next(BroadcastStage::Gossiping, BroadcastEvent::Failed, true) == BroadcastStage::Selecting);
    assert!(next(BroadcastStage::Gossiping, done, false) == BroadcastStage::Finished);
    assert!(next(BroadcastStage::Selecting, BroadcastEvent::Failed, true) == BroadcastStage::Finished);
    assert!(next(BroadcastStage::Selecting, done, true) == BroadcastStage::Finished);
    let found = BroadcastEvent::Done { targets: 2 };
    assert!(next(BroadcastStage::Selecting, found, true) == BroadcastStage::Pushing { next: 0 });
    let failed = BroadcastEvent::Failed;
    assert!(next(BroadcastStage::Pushing { next: 0 }, failed, true) == BroadcastStage::Pushing { next: 1 });
    assert!(next(BroadcastStage::Pushing { next: 1 }, done, true) == BroadcastStage::Finished);
    assert!(replicate::needs_placement(&vec![text("c")], 1));
    assert!(!replicate::needs_placement(&vec![], 1) && !replicate::needs_placement(&vec![text("c")], 0));
}

#[test]
fn a_broadcast_reaches_each_peer_once() {
    let outcomes = [BroadcastEvent::Done { targets: 9 }, BroadcastEvent::Failed];
    for found in 0..4usize {
        for outcome in outcomes {
            let mut stages = vec![];
            let mut stage = BroadcastStage::Encoding;
            for i in 0..8 {
                let event = match i {
                    0 => BroadcastEvent::Done { targets: 0 },
                    2 => BroadcastEvent::Done { targets: found },
                    _ => outcome,
                };
                stage = replicate::next_broadcast_stage(stage, event, true, found);
                stages.push(stage);
            }
            let mut expected = vec![BroadcastStage::Gossiping, BroadcastStage::Selecting];
            expected.extend((0..found).map(|next| BroadcastStage::Pushing { next }));
            expected.resize(8, BroadcastStage::Finished);
            assert_eq!(stages, expected);
        }
    }
}

#[test]
fn a_replicated_record_is_taken_in_once() {
    let mut store = Store::new();
    let record = Record::new(&"ab".repeat(32), 1, post_body("dev")).unwrap();
    let req = ReplicateReq { record: record.clone(), object_cids: vec![text("c")] };
    assert!(matches!(replicate::ingest_replication(&mut store, &req), Ingested::Fresh { pull: true }));
    assert!(matches!(replicate::ingest_replication(&mut store, &req), Ingested::Known));
    let mut bad = record.clone();
    bad.created_ms = 2;
    let req = ReplicateReq { record: bad, object_cids: vec![] };
    match replicate::ingest_replication(&mut store, &req) {
        Ingested::Rejected { error } => assert!(matches!(error, RecordError::IdMismatch { .. })),
        _ => panic!("expected a refusal"),
    }
    let other = Record::new(&"ab".repeat(32), 3, post_body("dev")).unwrap();
    let req = ReplicateReq { record: other, object_cids: vec![] };
    assert!(matches!(replicate::ingest_replication(&mut store, &req), Ingested::Fresh { pull: false }));
    assert_eq!(store.len(), 2);
}

#[test]
fn the_gossip_loop_backs_off_and_recovers() {
    let mut g = replicate::gossip_start();
    let mut waits: Vec<u64> = vec![];
    for _ in 0..8 {
        let (next, action) = replicate::gossip_next(g, GossipEvent::OpenFailed);
        if let GossipAction::WaitThenOpen { ms } = action {
            waits.push(ms);
        }
        g = next;
    }
    assert_eq!(waits, vec![250, 500, 1000, 2000, 4000, 8000, 10_000, 10_000]);
    assert_eq!(g.backoff_ms, BACKOFF_CEILING_MS);
    let (g, action) = replicate::gossip_next(g, GossipEvent::Opened);
    assert!(g == Gossip { connected: true, backoff_ms: BACKOFF_FLOOR_MS } && action == GossipAction::Listen);
    let message = |on_topic: bool, wants_reply: bool, readable: bool| {
        replicate::gossip_next(g, GossipEvent::Message { on_topic, wants_reply, readable }).1
    };
    assert!(message(true, false, true) == GossipAction::Ingest);
    assert!(message(false, false, true) == GossipAction::Listen);
    assert!(message(true, true, true) == GossipAction::Listen);
    assert!(message(true, false, false) == GossipAction::Listen);
    let (g, action) = replicate::gossip_next(g, GossipEvent::Lost);
    assert!(!g.connected && action == GossipAction::Open);
    assert!(replicate::gossip_next(g, GossipEvent::Shutdown).1 == GossipAction::Stop);
}

// ----- client -----

#[test]
fn calls_have_options() {
    let o = CallOptions::new();
    assert_eq!((o.timeout_ms, o.pinned.is_none(), o.act_as.is_none()), (10_000, true, true));
    assert!(o.identity_fields().is_empty() && o.destination().is_none());
    let o = CallOptions::pinned("n").with_timeout(5).with_act_as("a", "tok");
    assert_eq!(o.identity_fields(), vec![(text("_as"), text("a")), (text("_cap"), text("tok"))]);
    assert_eq!(o.destination(), Some(&text("n")));
    assert_eq!((o.timeout_ms, o.pinned.as_deref()), (5, Some("n")));
    assert_eq!(o.act_as, Some((text("a"), text("tok"))));
}

#[test]
fn failed_calls_name_their_topic() {
    assert_eq!(client::call_result("t", Envelope::ok(text("1"))).unwrap(), "1");
    assert_eq!(client::call_result("t", Envelope::err("no")).unwrap_err(), "trana t: no");
}

#[test]
fn media_types_follow_the_extension() {
    assert_eq!(mime::guess_mime(Some("PNG")), "image/png");
    assert_eq!(mime::guess_mime(Some("jpeg")), "image/jpeg");
    assert_eq!(mime::guess_mime(Some("mov")), "video/quicktime");
    assert_eq!(mime::guess_mime(Some("Opus")), "audio/ogg");
    assert_eq!(mime::guess_mime(Some("markdown")), "text/markdown");
    assert_eq!(mime::guess_mime(Some("xyz")), "application/octet-stream");
    assert_eq!(mime::guess_mime(None), "application/octet-stream");
    assert_eq!(mime::file_name(Some("clip.mp4")), "clip.mp4");
    assert_eq!(mime::file_name(None), "untitled");
}
