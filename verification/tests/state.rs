use trana::extra::Extra;
use trana::model::{
    Body, Follow, Media, MediaKind, MediaRef, Post, Profile, StreamEnd, StreamKind, StreamSegment, StreamStart, Vote,
};
use trana::table::Table;
use trana::{Record, SortBy, State};

fn root(author: &str, board: &str, t: u64, title: &str) -> Record {
    Record::new(
        author,
        t,
        Body::Post(Post {
            board: board.to_string(),
            parent: None,
            title: Some(title.to_string()),
            body: "b".to_string(),
            media: vec![],
        }),
    )
    .unwrap()
}

fn comment(author: &str, board: &str, t: u64, parent: &str) -> Record {
    Record::new(
        author,
        t,
        Body::Post(Post {
            board: board.to_string(),
            parent: Some(parent.to_string()),
            title: None,
            body: "c".to_string(),
            media: vec![],
        }),
    )
    .unwrap()
}

fn vote(author: &str, t: u64, target: &str, value: i8) -> Record {
    Record::new(author, t, Body::Vote(Vote { target: target.to_string(), value })).unwrap()
}

fn follow(author: &str, t: u64, followee: &str, active: bool) -> Record {
    Record::new(author, t, Body::Follow(Follow { followee: followee.to_string(), active })).unwrap()
}

fn stream_start(author: &str, t: u64, kind: StreamKind) -> Record {
    Record::new(
        author,
        t,
        Body::StreamStart(StreamStart {
            title: "live".to_string(),
            kind,
            board: None,
            thumbnail: None,
            extra: Extra::default(),
        }),
    )
    .unwrap()
}

fn segment(author: &str, t: u64, stream: &str, seq: u64, cid: &str, ms: u64) -> Record {
    Record::new(
        author,
        t,
        Body::StreamSegment(StreamSegment {
            stream: stream.to_string(),
            seq,
            object_cid: cid.to_string(),
            duration_ms: ms,
        }),
    )
    .unwrap()
}

fn stream_end(author: &str, t: u64, stream: &str, recording: Option<&str>) -> Record {
    let recording_cid = recording.map(|s| s.to_string());
    Record::new(author, t, Body::StreamEnd(StreamEnd { stream: stream.to_string(), recording_cid })).unwrap()
}

fn no_scores() -> Table<i64> {
    Table::new()
}

fn folded(records: &[&Record]) -> State {
    let mut s = State::new();
    for r in records {
        s.apply(r);
    }
    s
}

#[test]
fn apply_is_idempotent() {
    let mut s = State::new();
    let r = root("aa".repeat(32).as_str(), "b", 1, "t");
    assert!(s.apply(&r));
    assert!(!s.apply(&r), "second apply of same id is a no-op");
    assert_eq!(s.len(), 1);
    assert!(s.has(&r.id) && !s.is_empty());
}

#[test]
fn threads_and_comments_tree() {
    let mut s = State::new();
    let a = "aa".repeat(32);
    let r = root(&a, "ce-dev", 10, "root");
    s.apply(&r);
    let c1 = comment(&a, "ce-dev", 11, &r.id);
    let c2 = comment(&a, "ce-dev", 12, &c1.id);
    s.apply(&c1);
    s.apply(&c2);

    let threads = s.threads("ce-dev", SortBy::New, 10, &no_scores());
    assert_eq!(threads.len(), 1);
    assert_eq!(threads[0].id, r.id);
    assert_eq!(threads[0].reply_count, 1);

    let comments = s.comments(&r.id, SortBy::New, &no_scores());
    assert_eq!(comments.len(), 2, "nested comment is included");
    assert_eq!(comments[0].id, c1.id);
    assert_eq!(comments[1].id, c2.id);
}

#[test]
fn votes_tally_and_change() {
    let mut s = State::new();
    let a = "aa".repeat(32);
    let voter = "bb".repeat(32);
    let r = root(&a, "b", 1, "t");
    s.apply(&r);

    s.apply(&vote(&voter, 2, &r.id, 1));
    assert_eq!(s.post(&r.id).unwrap().score, 1);
    // Change to downvote: net swings to -1, not -... double counting.
    s.apply(&vote(&voter, 3, &r.id, -1));
    let pv = s.post(&r.id).unwrap();
    assert_eq!((pv.ups, pv.downs, pv.score), (0, 1, -1));
    // Clear.
    s.apply(&vote(&voter, 4, &r.id, 0));
    assert_eq!(s.post(&r.id).unwrap().score, 0);
}

#[test]
fn social_karma_splits_posts_and_comments() {
    let mut s = State::new();
    let a = "aa".repeat(32);
    let v1 = "bb".repeat(32);
    let v2 = "cc".repeat(32);
    let r = root(&a, "b", 1, "t");
    let c = comment(&a, "b", 2, &r.id);
    s.apply(&r);
    s.apply(&c);
    s.apply(&vote(&v1, 3, &r.id, 1));
    s.apply(&vote(&v2, 3, &r.id, 1));
    s.apply(&vote(&v1, 3, &c.id, -1));

    let k = s.social(&a);
    assert_eq!(k.posts, 1);
    assert_eq!(k.comments, 1);
    assert_eq!(k.post_score, 2);
    assert_eq!(k.comment_score, -1);
    assert_eq!(k.karma(), 1);
    assert_eq!((k.upvotes, k.downvotes), (2, 1));
    assert_eq!(f64::from_bits(k.effective_score.bits), 1.0);
}

#[test]
fn profile_last_write_wins() {
    let mut s = State::new();
    let a = "aa".repeat(32);
    let mut p1 = Profile::default();
    p1.display_name = "old".to_string();
    let mut p2 = Profile::default();
    p2.display_name = "new".to_string();
    s.apply(&Record::new(&a, 5, Body::Profile(p2)).unwrap());
    s.apply(&Record::new(&a, 1, Body::Profile(p1)).unwrap()); // older, must not win
    assert_eq!(s.profile(&a).unwrap().profile.display_name, "new");
    assert_eq!(s.profile(&a).unwrap().updated_ms, 5);
    assert!(s.profile("nobody").is_none());
}

#[test]
fn streams_collect_segments_in_order() {
    let mut s = State::new();
    let a = "aa".repeat(32);
    let start = stream_start(&a, 1, StreamKind::Video);
    s.apply(&start);
    // Apply segments out of order.
    for seq in [2u64, 0, 1] {
        s.apply(&segment(&a, 10 + seq, &start.id, seq, &format!("cid{seq}"), 2000));
    }
    assert!(s.duration_fits(&start.id) && s.live_durations_fit());
    let view = s.stream(&start.id).unwrap();
    assert!(view.live);
    assert_eq!(view.segments.iter().map(|s| s.seq).collect::<Vec<_>>(), vec![0, 1, 2]);
    assert_eq!(view.total_duration_ms, 6000);
    assert_eq!(s.live_streams().len(), 1);
}

#[test]
fn stream_segment_from_non_author_is_ignored() {
    let mut s = State::new();
    let a = "aa".repeat(32);
    let imposter = "bb".repeat(32);
    let start = stream_start(&a, 1, StreamKind::Audio);
    s.apply(&start);
    s.apply(&segment(&imposter, 2, &start.id, 0, "x", 1000));
    assert!(s.stream(&start.id).unwrap().segments.is_empty());
    s.apply(&stream_end(&imposter, 3, &start.id, None));
    assert!(s.stream(&start.id).unwrap().live);
}

#[test]
fn follows_track_both_directions() {
    let mut s = State::new();
    let a = "aa".repeat(32);
    let b = "bb".repeat(32);
    s.apply(&follow(&a, 1, &b, true));
    assert!(s.is_following(&a, &b));
    assert_eq!(s.followers(&b), vec![a.clone()]);
    assert_eq!(s.following(&a), vec![b.clone()]);
    s.apply(&follow(&a, 2, &b, false));
    assert!(!s.is_following(&a, &b));
    assert!(s.followers(&b).is_empty());
}

#[test]
fn media_indexing() {
    let mut s = State::new();
    let a = "aa".repeat(32);
    let m = Media {
        kind: MediaKind::Video,
        object_cid: "obj".to_string(),
        mime: "video/mp4".to_string(),
        size: 100,
        title: "clip".to_string(),
        duration_ms: Some(5000),
        width: Some(1920),
        height: Some(1080),
        thumbnail: None,
        extra: Extra::default(),
    };
    let rec = Record::new(&a, 1, Body::Media(m.clone())).unwrap();
    s.apply(&rec);
    assert_eq!(s.media(&rec.id).unwrap().object_cid, "obj");
    assert_eq!(s.media_by(&a).len(), 1);
    // Reference it from a post.
    let _ = MediaRef::new(&rec.id);
    assert!(s.media("nothing").is_none());
    assert!(s.media_by("nobody").is_empty());
}

#[test]
fn an_empty_state_answers_with_nothing() {
    let s = State::default();
    assert!(s.is_empty() && s.len() == 0);
    assert!(s.post("x").is_none());
    assert!(s.stream("x").is_none());
    assert!(s.threads("b", SortBy::Hot, 10, &no_scores()).is_empty());
    assert!(s.comments("x", SortBy::New, &no_scores()).is_empty());
    assert!(s.all_feed(SortBy::New, 10, &no_scores()).is_empty());
    let k = s.social("x");
    assert_eq!((k.posts, k.comments, k.karma()), (0, 0, 0));
}

#[test]
fn the_latest_vote_wins_in_any_order() {
    let a = "aa".repeat(32);
    let v = "bb".repeat(32);
    let r = root(&a, "b", 1, "t");
    let early = vote(&v, 5, &r.id, 1);
    let late = vote(&v, 9, &r.id, -1);
    for order in [[&r, &early, &late], [&r, &late, &early], [&late, &early, &r], [&early, &r, &late]] {
        let s = folded(&order);
        let pv = s.post(&r.id).unwrap();
        assert_eq!((pv.ups, pv.downs, pv.score), (0, 1, -1));
    }
    // A cleared vote stays cleared when an older one comes in late.
    let cleared = vote(&v, 10, &r.id, 0);
    let s = folded(&[&r, &cleared, &late, &early]);
    assert_eq!(s.post(&r.id).unwrap().score, 0);
}

#[test]
fn votes_are_clamped_and_counted_once() {
    let a = "aa".repeat(32);
    let r = root(&a, "b", 1, "t");
    let mut s = folded(&[&r]);
    s.apply(&vote(&"bb".repeat(32), 2, &r.id, 100));
    s.apply(&vote(&"cc".repeat(32), 2, &r.id, -128));
    s.apply(&vote(&"cc".repeat(32), 3, &r.id, -5));
    let pv = s.post(&r.id).unwrap();
    assert_eq!((pv.ups, pv.downs, pv.score), (1, 1, 0));
}

#[test]
fn the_latest_follow_wins_in_any_order() {
    let (a, b) = ("aa".repeat(32), "bb".repeat(32));
    let on = follow(&a, 1, &b, true);
    let off = follow(&a, 2, &b, false);
    assert!(!folded(&[&on, &off]).is_following(&a, &b));
    assert!(!folded(&[&off, &on]).is_following(&a, &b));
    assert!(!folded(&[&on]).is_following(&b, &a));
}

#[test]
fn the_same_records_give_the_same_views_in_any_order() {
    let (a, b) = ("aa".repeat(32), "bb".repeat(32));
    let r = root(&a, "dev", 1, "t");
    let c = comment(&b, "dev", 2, &r.id);
    let v1 = vote(&b, 3, &r.id, 1);
    let v2 = vote(&a, 4, &c.id, -1);
    let f = follow(&a, 5, &b, true);
    let one = folded(&[&r, &c, &v1, &v2, &f, &r]);
    let two = folded(&[&f, &v2, &c, &v1, &r, &v2]);
    assert_eq!(one.len(), two.len());
    for id in [&r.id, &c.id] {
        let (x, y) = (one.post(id).unwrap(), two.post(id).unwrap());
        assert_eq!((x.score, x.reply_count, x.author), (y.score, y.reply_count, y.author));
    }
    let ids = |s: &State| s.comments(&r.id, SortBy::New, &no_scores()).iter().map(|v| v.id.clone()).collect::<Vec<_>>();
    assert_eq!(ids(&one), ids(&two));
    assert_eq!(ids(&one), vec![c.id.clone()]);
}

#[test]
fn threads_rank_and_cut() {
    let (a, v) = ("aa".repeat(32), "bb".repeat(32));
    let old = root(&a, "dev", 1, "old");
    let mid = root(&a, "dev", 2, "mid");
    let new = root(&a, "dev", 3, "new");
    let other = root(&a, "elsewhere", 4, "other");
    let up = vote(&v, 5, &old.id, 1);
    let down = vote(&v, 5, &new.id, -1);
    let s = folded(&[&mid, &old, &new, &other, &up, &down]);
    let ids = |sort: SortBy, limit: usize, scores: &Table<i64>| {
        s.threads("dev", sort, limit, scores).iter().map(|v| v.title.clone().unwrap()).collect::<Vec<_>>()
    };
    assert_eq!(ids(SortBy::New, 10, &no_scores()), vec!["new", "mid", "old"]);
    assert_eq!(ids(SortBy::Top, 10, &no_scores()), vec!["old", "mid", "new"]);
    assert_eq!(ids(SortBy::New, 2, &no_scores()), vec!["new", "mid"]);
    assert_eq!(ids(SortBy::New, 0, &no_scores()), Vec::<String>::new());
    // The other sorts go by the scores that are passed in; equal scores go by time.
    let mut scores: Table<i64> = Table::new();
    scores.insert(&mid.id, 7);
    assert_eq!(ids(SortBy::Hot, 10, &scores), vec!["mid", "new", "old"]);
    assert_eq!(ids(SortBy::Best, 10, &no_scores()), vec!["new", "mid", "old"]);
}

#[test]
fn comments_are_listed_depth_first() {
    let a = "aa".repeat(32);
    let r = root(&a, "dev", 1, "t");
    let c1 = comment(&a, "dev", 2, &r.id);
    let c2 = comment(&a, "dev", 3, &r.id);
    let c11 = comment(&a, "dev", 4, &c1.id);
    let c21 = comment(&a, "dev", 5, &c2.id);
    // A reply may come before what it answers.
    let s = folded(&[&c21, &c11, &c2, &c1, &r]);
    let ids = s.comments(&r.id, SortBy::New, &no_scores()).iter().map(|v| v.id.clone()).collect::<Vec<_>>();
    assert_eq!(ids, vec![c2.id.clone(), c21.id.clone(), c1.id.clone(), c11.id.clone()]);
    let below = s.comments(&c1.id, SortBy::New, &no_scores()).iter().map(|v| v.id.clone()).collect::<Vec<_>>();
    assert_eq!(below, vec![c11.id.clone()]);
}

#[test]
fn feeds_hold_roots_only() {
    let (a, b, c) = ("aa".repeat(32), "bb".repeat(32), "cc".repeat(32));
    let r1 = root(&a, "x", 1, "1");
    let r2 = root(&b, "y", 2, "2");
    let reply = comment(&b, "x", 3, &r1.id);
    let f = follow(&c, 4, &b, true);
    let s = folded(&[&r1, &r2, &reply, &f]);
    let all = s.all_feed(SortBy::New, 10, &no_scores());
    assert_eq!(all.iter().map(|v| v.id.clone()).collect::<Vec<_>>(), vec![r2.id.clone(), r1.id.clone()]);
    assert_eq!(s.all_feed(SortBy::New, 1, &no_scores()).len(), 1);
    let home = s.home_feed(&c, SortBy::New, 10, &no_scores());
    assert_eq!(home.iter().map(|v| v.id.clone()).collect::<Vec<_>>(), vec![r2.id.clone()]);
    assert!(s.home_feed(&a, SortBy::New, 10, &no_scores()).is_empty());
}

#[test]
fn sort_names_are_read_in_any_case() {
    assert!(SortBy::parse("new") == SortBy::New);
    assert!(SortBy::parse("TOP") == SortBy::Top);
    assert!(SortBy::parse("Best") == SortBy::Best);
    assert!(SortBy::parse("trending") == SortBy::Trending);
    assert!(SortBy::parse("RisinG") == SortBy::Rising);
    assert!(SortBy::parse("controversial") == SortBy::Controversial);
    assert!(SortBy::parse("contro") == SortBy::Controversial);
    assert!(SortBy::parse("hot") == SortBy::Hot);
    assert!(SortBy::parse("whatever") == SortBy::Hot);
    assert!(SortBy::parse("") == SortBy::Hot);
}

#[test]
fn streams_end_and_keep_their_recording() {
    let a = "aa".repeat(32);
    let start = stream_start(&a, 1, StreamKind::Video);
    let mut s = folded(&[&start]);
    s.apply(&segment(&a, 2, &start.id, 0, "first", 10));
    s.apply(&segment(&a, 3, &start.id, 0, "second", 99));
    s.apply(&stream_end(&a, 4, &start.id, Some("rec")));
    s.apply(&stream_end(&a, 5, &start.id, None));
    let view = s.stream(&start.id).unwrap();
    assert!(!view.live);
    assert_eq!(view.recording_cid.as_deref(), Some("rec"));
    assert_eq!(view.segments.len(), 1);
    assert_eq!(view.segments[0].object_cid, "first");
    assert_eq!(view.total_duration_ms, 10);
    assert!(s.live_streams().is_empty());
}

#[test]
fn durations_that_do_not_fit_are_seen_before_they_are_summed() {
    let a = "aa".repeat(32);
    let start = stream_start(&a, 1, StreamKind::Video);
    let mut s = folded(&[&start]);
    s.apply(&segment(&a, 2, &start.id, 0, "x", u64::MAX));
    assert!(s.duration_fits(&start.id));
    s.apply(&segment(&a, 3, &start.id, 1, "y", 1));
    assert!(!s.duration_fits(&start.id));
    assert!(!s.live_durations_fit());
}

#[test]
fn media_is_listed_newest_first() {
    let a = "aa".repeat(32);
    let media = |cid: &str| {
        Body::Media(Media {
            kind: MediaKind::Image,
            object_cid: cid.to_string(),
            mime: "image/png".to_string(),
            size: 1,
            title: String::new(),
            duration_ms: None,
            width: None,
            height: None,
            thumbnail: None,
            extra: Extra::new(),
        })
    };
    let one = Record::new(&a, 1, media("one")).unwrap();
    let two = Record::new(&a, 2, media("two")).unwrap();
    let s = folded(&[&one, &two]);
    let cids = s.media_by(&a).iter().map(|(_, m)| m.object_cid.clone()).collect::<Vec<_>>();
    assert_eq!(cids, vec!["two", "one"]);
    assert_eq!(s.media_by(&a)[1].0, one.id);
}

#[test]
fn post_views_carry_what_was_posted() {
    let a = "aa".repeat(32);
    let r = Record::new(
        &a,
        3,
        Body::Post(Post {
            board: "dev".to_string(),
            parent: None,
            title: Some("t".to_string()),
            body: "text".to_string(),
            media: vec![MediaRef::new("m1"), MediaRef::new("m2")],
        }),
    )
    .unwrap();
    let s = folded(&[&r]);
    let v = s.post(&r.id).unwrap();
    assert_eq!((v.author.as_str(), v.board.as_str(), v.created_ms, v.body.as_str()), (a.as_str(), "dev", 3, "text"));
    assert_eq!(v.media, vec!["m1", "m2"]);
    assert!(v.parent.is_none() && v.reply_count == 0);
}

#[test]
fn parts_of_a_stream_may_come_before_its_start() {
    let a = "aa".repeat(32);
    let start = stream_start(&a, 1, StreamKind::Video);
    let one = segment(&a, 2, &start.id, 0, "one", 10);
    let two = segment(&a, 3, &start.id, 1, "two", 20);
    let end = stream_end(&a, 4, &start.id, Some("rec"));
    for order in [[&start, &one, &two, &end], [&end, &two, &one, &start], [&one, &start, &end, &two]] {
        let s = folded(&order);
        let view = s.stream(&start.id).unwrap();
        assert_eq!(view.segments.iter().map(|g| g.object_cid.clone()).collect::<Vec<_>>(), vec!["one", "two"]);
        assert_eq!((view.live, view.recording_cid.as_deref(), view.total_duration_ms), (false, Some("rec"), 30));
    }
    // Parts without a start show nothing.
    let s = folded(&[&one, &two]);
    assert!(s.stream(&start.id).is_none() && s.live_streams().is_empty() && s.live_durations_fit());
    // Early parts of someone else stay out of the stream.
    let foreign = segment(&"bb".repeat(32), 2, &start.id, 0, "foreign", 10);
    assert!(folded(&[&foreign, &start]).stream(&start.id).unwrap().segments.is_empty());
}

#[test]
fn ties_are_decided_by_id_in_any_order() {
    let (a, v) = ("aa".repeat(32), "bb".repeat(32));
    let r = root(&a, "b", 1, "t");
    // Votes at one time: the one with the larger id counts.
    let up = vote(&v, 5, &r.id, 1);
    let down = vote(&v, 5, &r.id, -1);
    let score = if up.id > down.id { 1 } else { -1 };
    for order in [[&r, &up, &down], [&down, &up, &r]] {
        assert_eq!(folded(&order).post(&r.id).unwrap().score, score);
    }
    // Profiles at one time.
    let named = |name: &str| {
        let mut p = Profile::default();
        p.display_name = name.to_string();
        Record::new(&a, 7, Body::Profile(p)).unwrap()
    };
    let (p, q) = (named("p"), named("q"));
    let winner = if p.id > q.id { "p" } else { "q" };
    for order in [[&p, &q], [&q, &p]] {
        assert_eq!(folded(&order).profile(&a).unwrap().profile.display_name, winner);
    }
    // Segments with one sequence number: the earliest, and of one time the one with the smaller id.
    let start = stream_start(&a, 1, StreamKind::Audio);
    let (x, y) = (segment(&a, 3, &start.id, 0, "x", 1), segment(&a, 3, &start.id, 0, "y", 2));
    let first = if x.id < y.id { "x" } else { "y" };
    let early = segment(&a, 2, &start.id, 0, "early", 4);
    for order in [[&start, &x, &y], [&y, &start, &x]] {
        assert_eq!(folded(&order).stream(&start.id).unwrap().segments[0].object_cid, first);
    }
    assert_eq!(folded(&[&start, &x, &early, &y]).stream(&start.id).unwrap().segments[0].object_cid, "early");
    // Recordings: the latest, and of one time the one with the larger id.
    let (e, f) = (stream_end(&a, 9, &start.id, Some("e")), stream_end(&a, 9, &start.id, Some("f")));
    let last = if e.id > f.id { "e" } else { "f" };
    let stale = stream_end(&a, 8, &start.id, Some("stale"));
    for order in [[&e, &f, &start, &stale], [&stale, &start, &f, &e]] {
        assert_eq!(folded(&order).stream(&start.id).unwrap().recording_cid.as_deref(), Some(last));
    }
}

#[test]
fn equal_posts_are_listed_alike_in_any_order_of_arrival() {
    let a = "aa".repeat(32);
    let posts = ["1", "2", "3"].map(|t| root(&a, "dev", 5, t));
    let mut ids = posts.iter().map(|p| p.id.clone()).collect::<Vec<_>>();
    ids.sort();
    for order in [[0, 1, 2], [2, 1, 0], [1, 2, 0]] {
        let s = folded(&order.map(|i| &posts[i]));
        for views in [s.threads("dev", SortBy::New, 9, &no_scores()), s.all_feed(SortBy::Top, 9, &no_scores())] {
            assert_eq!(views.iter().map(|v| v.id.clone()).collect::<Vec<_>>(), ids);
        }
    }
}

#[test]
fn people_are_listed_in_ascending_order() {
    let node = |n: &str| n.repeat(32);
    let records = [
        follow(&node("aa"), 1, &node("cc"), true),
        follow(&node("aa"), 1, &node("bb"), true),
        follow(&node("dd"), 1, &node("bb"), true),
        follow(&node("cc"), 1, &node("bb"), true),
    ];
    for order in [[0, 1, 2, 3], [3, 2, 1, 0]] {
        let s = folded(&order.map(|i| &records[i]));
        assert_eq!(s.following(&node("aa")), vec![node("bb"), node("cc")]);
        assert_eq!(s.followers(&node("bb")), vec![node("aa"), node("cc"), node("dd")]);
    }
}

#[test]
fn what_was_published_stays() {
    let (a, b) = ("aa".repeat(32), "bb".repeat(32));
    let post = root(&a, "dev", 1, "first");
    let stream = stream_start(&a, 2, StreamKind::Video);
    let mut s = State::new();
    s.apply(&post);
    s.apply(&stream);
    let mut other = root(&b, "dev", 3, "second");
    other.id = post.id.clone();
    assert!(!s.apply(&other));
    let mut restart = stream_start(&b, 4, StreamKind::Audio);
    restart.id = stream.id.clone();
    assert!(!s.apply(&restart));
    for r in [&vote(&b, 5, &post.id, 1), &comment(&b, "dev", 6, &post.id), &stream_end(&a, 7, &stream.id, None)] {
        assert!(s.apply(r));
    }
    let shown = s.post(&post.id).unwrap();
    assert_eq!((shown.author.as_str(), shown.title.as_deref(), shown.created_ms), (a.as_str(), Some("first"), 1));
    let shown = s.stream(&stream.id).unwrap();
    assert_eq!((shown.author.as_str(), shown.start.kind), (a.as_str(), StreamKind::Video));
    assert_eq!(s.len(), 5);
}

#[test]
fn a_lower_limit_shows_the_beginning_of_the_listing() {
    let a = "aa".repeat(32);
    let mut s = State::new();
    for t in 0..4 {
        s.apply(&root(&a, "dev", t, "t"));
    }
    s.apply(&root(&a, "art", 9, "elsewhere"));
    let none: Table<i64> = Table::new();
    let ids = |limit: usize| s.threads("dev", SortBy::New, limit, &none).iter().map(|v| v.id.clone()).collect::<Vec<_>>();
    let all = ids(50);
    assert_eq!(all.len(), 4);
    for k in 0..6usize {
        assert_eq!(ids(k), all[..k.min(4)].to_vec());
    }
}
