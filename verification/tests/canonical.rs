use std::collections::BTreeMap;
use trana::double::Double;
use trana::extra::Extra;
use trana::model::{
    BanVote, BoardCreate, BoardPolicy, Body, DeviceLink, Document, FileRef, Follow, Link, Media, MediaKind, MediaRef,
    PolicyProposal, PolicyVote, Post, Profile, Ref, StreamEnd, StreamKind, StreamSegment, StreamStart, Vote,
};
use trana::record::canonical_bytes;

const AUTHOR: &str = "an author";

fn bytes_of(body: Body) -> Vec<u8> {
    canonical_bytes(AUTHOR, 0x0102_0304_0506_0708, &body).unwrap()
}

fn head(kind: &str) -> Vec<u8> {
    bincode::serialize(&(AUTHOR, 0x0102_0304_0506_0708u64, kind)).unwrap()
}

fn text(s: &str) -> String {
    s.to_string()
}

fn some(s: &str) -> Option<String> {
    Some(s.to_string())
}

#[test]
fn posts_are_laid_out_field_by_field() {
    let body = Body::Post(Post {
        board: text("ce-dev"),
        parent: some("p"),
        title: None,
        body: text("gr\u{fc}n \u{1f33f}"),
        media: vec![MediaRef::new("m1"), MediaRef::new("m2")],
    });
    let mut want = head("post");
    want.extend(
        bincode::serialize(&("ce-dev", Some("p"), None::<String>, "gr\u{fc}n \u{1f33f}", vec!["m1", "m2"])).unwrap(),
    );
    assert_eq!(bytes_of(body), want);
}

#[test]
fn profiles_are_laid_out_field_by_field() {
    let body = Body::Profile(Profile {
        handle: some("leif"),
        display_name: text("Leif"),
        bio: text("b"),
        avatar: Some(MediaRef::new("av")),
        links: vec![Link { label: text("site"), url: text("http://x") }],
        devices: vec![text("d1"), text("d2")],
    });
    let mut want = head("profile");
    want.extend(
        bincode::serialize(&(Some("leif"), "Leif", "b", Some("av"), vec![("site", "http://x")], vec!["d1", "d2"]))
            .unwrap(),
    );
    assert_eq!(bytes_of(body), want);
}

#[test]
fn media_is_laid_out_field_by_field() {
    let mut extra = Extra::new();
    extra.insert(text("z"), text("1"));
    extra.insert(text("a"), text("2"));
    let body = Body::Media(Media {
        kind: MediaKind::Podcast,
        object_cid: text("obj"),
        mime: text("audio/mpeg"),
        size: 99,
        title: text("t"),
        duration_ms: Some(5),
        width: None,
        height: Some(7),
        thumbnail: None,
        extra,
    });
    let mut map: BTreeMap<String, String> = BTreeMap::new();
    map.insert(text("z"), text("1"));
    map.insert(text("a"), text("2"));
    let mut want = head("media");
    want.extend(
        bincode::serialize(&(
            3u32,
            "obj",
            "audio/mpeg",
            99u64,
            "t",
            Some(5u64),
            None::<u32>,
            Some(7u32),
            None::<String>,
            map,
        ))
        .unwrap(),
    );
    assert_eq!(bytes_of(body), want);
}

#[test]
fn votes_follows_and_links_are_laid_out_field_by_field() {
    let mut want = head("vote");
    want.extend(bincode::serialize(&("x", -1i8)).unwrap());
    assert_eq!(bytes_of(Body::Vote(Vote { target: text("x"), value: -1 })), want);

    let mut want = head("follow");
    want.extend(bincode::serialize(&("f", true)).unwrap());
    assert_eq!(bytes_of(Body::Follow(Follow { followee: text("f"), active: true })), want);

    let mut want = head("device_link");
    want.extend(bincode::serialize(&("o", false)).unwrap());
    assert_eq!(bytes_of(Body::DeviceLink(DeviceLink { owner: text("o"), active: false })), want);
}

#[test]
fn streams_are_laid_out_field_by_field() {
    let body = Body::StreamStart(StreamStart {
        title: text("live"),
        kind: StreamKind::Audio,
        board: some("b"),
        thumbnail: Some(MediaRef::new("th")),
        extra: Extra::default(),
    });
    let mut want = head("stream_start");
    want.extend(
        bincode::serialize(&("live", 1u32, Some("b"), Some("th"), BTreeMap::<String, String>::new())).unwrap(),
    );
    assert_eq!(bytes_of(body), want);

    let body = Body::StreamSegment(StreamSegment { stream: text("s"), seq: 4, object_cid: text("c"), duration_ms: 9 });
    let mut want = head("stream_segment");
    want.extend(bincode::serialize(&("s", 4u64, "c", 9u64)).unwrap());
    assert_eq!(bytes_of(body), want);

    let body = Body::StreamEnd(StreamEnd { stream: text("s"), recording_cid: some("rec") });
    let mut want = head("stream_end");
    want.extend(bincode::serialize(&("s", Some("rec"))).unwrap());
    assert_eq!(bytes_of(body), want);
}

#[test]
fn documents_are_laid_out_field_by_field() {
    let body = Body::Document(Document {
        title: text("t"),
        body: text("b"),
        file: Some(FileRef { object_cid: text("c"), mime: text("m"), size: 3, name: text("n") }),
        refs: vec![Ref::post("p"), Ref::blob("x")],
        board: None,
        series: some("s"),
        prev: some("v"),
    });
    let mut want = head("document");
    want.extend(
        bincode::serialize(&(
            "t",
            "b",
            Some(("c", "m", 3u64, "n")),
            vec![(0u32, "p"), (6u32, "x")],
            None::<String>,
            Some("s"),
            Some("v"),
        ))
        .unwrap(),
    );
    assert_eq!(bytes_of(body), want);
}

#[test]
fn governance_is_laid_out_field_by_field() {
    let policy = BoardPolicy {
        grace_secs: 60,
        ban_support: Double { bits: (0.75f64).to_bits() },
        ban_quorum: 3,
        min_trust_to_post: Double { bits: (0.1f64).to_bits() },
        min_trust_to_vote: Double { bits: (0.0f64).to_bits() },
    };
    let body =
        Body::BoardCreate(BoardCreate { board: text("b"), title: text("t"), description: text("d"), policy });
    let mut want = head("board_create");
    want.extend(bincode::serialize(&("b", "t", "d", (60u64, 0.75f64, 3u32, 0.1f64, 0.0f64))).unwrap());
    assert_eq!(bytes_of(body), want);

    let body = Body::BanVote(BanVote { board: text("b"), target: text("u"), support: true, reason: text("r") });
    let mut want = head("ban_vote");
    want.extend(bincode::serialize(&("b", "u", true, "r")).unwrap());
    assert_eq!(bytes_of(body), want);

    let body = Body::PolicyProposal(PolicyProposal { board: some("b"), title: text("t"), body: text("x") });
    let mut want = head("policy_proposal");
    want.extend(bincode::serialize(&(Some("b"), "t", "x")).unwrap());
    assert_eq!(bytes_of(body), want);

    let body = Body::PolicyVote(PolicyVote { proposal: text("p"), support: false });
    let mut want = head("policy_vote");
    want.extend(bincode::serialize(&("p", false)).unwrap());
    assert_eq!(bytes_of(body), want);
}

#[test]
fn metadata_lies_in_key_order_whatever_the_order_of_insertion() {
    let mut a = Extra::new();
    a.insert(text("k"), text("1"));
    a.insert(text("b"), text("2"));
    a.insert(text("k"), text("3"));
    let mut b = Extra::new();
    b.insert(text("b"), text("2"));
    b.insert(text("k"), text("3"));
    assert_eq!(a.len(), 2);
    assert_eq!(a.entry(0).0, "b");
    assert_eq!(a.entry(1).1, "3");
    assert_eq!(a.get("k").unwrap(), "3");
    assert!(a.get("z").is_none());
    let start = |extra: Extra| {
        bytes_of(Body::StreamStart(StreamStart {
            title: text("t"),
            kind: StreamKind::Video,
            board: None,
            thumbnail: None,
            extra,
        }))
    };
    assert_eq!(start(a), start(b));
}

#[test]
fn the_kind_of_a_body_is_its_tag() {
    assert_eq!(Body::Vote(Vote { target: text("x"), value: 1 }).kind(), "vote");
    assert_eq!(Body::Profile(Profile::default()).kind(), "profile");
    assert_eq!(Body::StreamEnd(StreamEnd { stream: text("s"), recording_cid: None }).kind(), "stream_end");
    assert_eq!(Body::PolicyVote(PolicyVote { proposal: text("p"), support: true }).kind(), "policy_vote");
}
