//! Convergence: nodes that have seen the same records agree, whatever the order of arrival.
use crate::ballot;
use crate::ballot::{Ballots, Mark, Marks};
use crate::crypto;
use crate::model::BodyModel;
use crate::readmodel;
use crate::readmodel::{
    BoardEntry, LinkEntry, Parts, PartsEntry, ProfileEntry, RecordingEntry, SegmentEntry, StateModel,
};
use crate::record;
use crate::record::RecordModel;
use crate::stamp;
use vstd::prelude::*;

verus! {

/// Two tables of lists that hold the same ids under every key, in some order.
pub open spec fn same_lists(a: Map<Seq<char>, Seq<Seq<char>>>, b: Map<Seq<char>, Seq<Seq<char>>>) -> bool {
    &&& a.dom() == b.dom()
    &&& forall|k: Seq<char>| #[trigger] a.contains_key(k) ==> a[k].to_multiset() == b[k].to_multiset()
}

/// Two models that agree on everything but the order in which posts arrived.
pub open spec fn converged(a: StateModel, b: StateModel) -> bool {
    &&& a.seen == b.seen
    &&& a.profiles == b.profiles
    &&& a.media == b.media
    &&& a.posts == b.posts
    &&& same_lists(a.board_threads, b.board_threads)
    &&& same_lists(a.children, b.children)
    &&& a.votes == b.votes
    &&& a.follows == b.follows
    &&& a.streams == b.streams
    &&& a.parts == b.parts
    &&& a.boards == b.boards
    &&& a.ban_votes == b.ban_votes
    &&& a.proposals == b.proposals
    &&& a.policy_votes == b.policy_votes
    &&& a.links == b.links
    &&& a.documents == b.documents
}

/// Two records that carry one id say the same.
pub open spec fn same_by_id(x: RecordModel, y: RecordModel) -> bool {
    x.id == y.id ==> x.author == y.author && x.created_ms == y.created_ms && x.body == y.body
}

/// Among the records an id always names the same content.
pub open spec fn ids_name_content(rs: Seq<RecordModel>) -> bool {
    forall|i: int, j: int| 0 <= i < rs.len() && 0 <= j < rs.len() ==> same_by_id(#[trigger] rs[i], #[trigger] rs[j])
}

proof fn lemma_marks_commute(m: Marks, v: Seq<char>, a: Mark, w: Seq<char>, b: Mark)
    requires
        a.id != b.id,
    ensures
        ballot::mark_step(ballot::mark_step(m, v, a), w, b) == ballot::mark_step(ballot::mark_step(m, w, b), v, a),
{
    if v == w {
        stamp::lemma_total(a.at, a.id, b.at, b.id);
        if m.contains_key(v) {
            stamp::lemma_three(a.at, a.id, b.at, b.id, m[v].at, m[v].id);
        }
    }
    assert(ballot::mark_step(ballot::mark_step(m, v, a), w, b) =~= ballot::mark_step(
        ballot::mark_step(m, w, b),
        v,
        a,
    ));
}

proof fn lemma_ballots_commute(m: Ballots, s: Seq<char>, v: Seq<char>, a: Mark, t: Seq<char>, w: Seq<char>, b: Mark)
    requires
        a.id != b.id,
    ensures
        ballot::ballots_step(ballot::ballots_step(m, s, v, a), t, w, b) == ballot::ballots_step(
            ballot::ballots_step(m, t, w, b),
            s,
            v,
            a,
        ),
{
    let xy = ballot::ballots_step(ballot::ballots_step(m, s, v, a), t, w, b);
    let yx = ballot::ballots_step(ballot::ballots_step(m, t, w, b), s, v, a);
    if s == t {
        lemma_marks_commute(ballot::marks_on(m, s), v, a, w, b);
    }
    assert(xy =~= yx);
}

proof fn lemma_links_commute(m: Map<Seq<char>, LinkEntry>, x: RecordModel, y: RecordModel)
    requires
        x.id != y.id,
    ensures
        readmodel::links_step(readmodel::links_step(m, x), y) == readmodel::links_step(readmodel::links_step(m, y), x),
{
    stamp::lemma_total(x.created_ms, x.id, y.created_ms, y.id);
    if x.author == y.author && m.contains_key(x.author) {
        let held = m[x.author];
        stamp::lemma_three(x.created_ms, x.id, y.created_ms, y.id, held.updated_ms, held.id);
    }
    assert(readmodel::links_step(readmodel::links_step(m, x), y) =~= readmodel::links_step(
        readmodel::links_step(m, y),
        x,
    ));
}

proof fn lemma_profiles_commute(m: Map<Seq<char>, ProfileEntry>, x: RecordModel, y: RecordModel)
    requires
        x.id != y.id,
    ensures
        readmodel::profiles_step(readmodel::profiles_step(m, x), y) == readmodel::profiles_step(
            readmodel::profiles_step(m, y),
            x,
        ),
{
    stamp::lemma_total(x.created_ms, x.id, y.created_ms, y.id);
    if x.author == y.author && m.contains_key(x.author) {
        let held = m[x.author];
        stamp::lemma_three(x.created_ms, x.id, y.created_ms, y.id, held.updated_ms, held.id);
    }
    assert(readmodel::profiles_step(readmodel::profiles_step(m, x), y) =~= readmodel::profiles_step(
        readmodel::profiles_step(m, y),
        x,
    ));
}

proof fn lemma_segments_commute(p: PartsEntry, x: SegmentEntry, y: SegmentEntry)
    requires
        x.id != y.id,
    ensures
        readmodel::extended(readmodel::extended(p, x), y) == readmodel::extended(readmodel::extended(p, y), x),
{
    stamp::lemma_total(x.at, x.id, y.at, y.id);
    if x.segment.seq == y.segment.seq && p.segments.contains_key(x.segment.seq) {
        let held = p.segments[x.segment.seq];
        stamp::lemma_three(x.at, x.id, y.at, y.id, held.at, held.id);
    }
    assert(readmodel::extended(readmodel::extended(p, x), y) =~= readmodel::extended(readmodel::extended(p, y), x));
}

proof fn lemma_ends_commute(p: PartsEntry, x: Option<RecordingEntry>, y: Option<RecordingEntry>)
    requires
        x is Some && y is Some ==> x->0.id != y->0.id,
    ensures
        readmodel::concluded(readmodel::concluded(p, x), y) == readmodel::concluded(readmodel::concluded(p, y), x),
{
    if x is Some && y is Some {
        stamp::lemma_total(x->0.at, x->0.id, y->0.at, y->0.id);
        if p.recording is Some {
            let held = p.recording->0;
            stamp::lemma_three(x->0.at, x->0.id, y->0.at, y->0.id, held.at, held.id);
        }
    }
}

/// Changing what one author has published of one stream leaves all other parts as they are.
proof fn lemma_with_parts(m: Parts, s: Seq<char>, a: Seq<char>, p: PartsEntry, t: Seq<char>, b: Seq<char>)
    ensures
        readmodel::parts_at(readmodel::with_parts(m, s, a, p), t, b) == (if s == t && a == b {
            p
        } else {
            readmodel::parts_at(m, t, b)
        }),
{
}

/// Parts of two streams or two authors may be changed in either order.
proof fn lemma_parts_apart(
    m: Parts,
    s: Seq<char>,
    a: Seq<char>,
    p: PartsEntry,
    t: Seq<char>,
    b: Seq<char>,
    q: PartsEntry,
)
    ensures
        s != t || a != b ==> readmodel::with_parts(readmodel::with_parts(m, s, a, p), t, b, q)
            == readmodel::with_parts(readmodel::with_parts(m, t, b, q), s, a, p),
        s == t && a == b ==> readmodel::with_parts(readmodel::with_parts(m, s, a, p), t, b, q)
            == readmodel::with_parts(m, s, a, q),
{
    let xy = readmodel::with_parts(readmodel::with_parts(m, s, a, p), t, b, q);
    let yx = readmodel::with_parts(readmodel::with_parts(m, t, b, q), s, a, p);
    let by = readmodel::authors_at(m, s);
    if s == t {
        if a != b {
            assert(by.insert(a, p).insert(b, q) =~= by.insert(b, q).insert(a, p));
            assert(xy =~= yx);
        } else {
            assert(by.insert(a, p).insert(b, q) =~= by.insert(a, q));
            assert(xy =~= readmodel::with_parts(m, s, a, q));
        }
    } else {
        assert(xy =~= yx);
    }
}

/// The stream of which a record is a part.
spec fn stream_of(r: RecordModel) -> Option<Seq<char>> {
    match r.body {
        BodyModel::StreamSegment(s) => Some(s.stream),
        BodyModel::StreamEnd(e) => Some(e.stream),
        _ => None,
    }
}

/// What a part of a stream adds to what its author has published of the stream.
spec fn added(p: PartsEntry, r: RecordModel) -> PartsEntry {
    match r.body {
        BodyModel::StreamSegment(s) => readmodel::extended(
            p,
            SegmentEntry { segment: s, at: r.created_ms, id: r.id },
        ),
        BodyModel::StreamEnd(e) => readmodel::concluded(
            p,
            readmodel::recording_of(e.recording_cid, r.created_ms, r.id),
        ),
        _ => p,
    }
}

proof fn lemma_added_commute(p: PartsEntry, x: RecordModel, y: RecordModel)
    requires
        x.id != y.id,
    ensures
        added(added(p, x), y) == added(added(p, y), x),
{
    match (x.body, y.body) {
        (BodyModel::StreamSegment(s), BodyModel::StreamSegment(t)) => lemma_segments_commute(
            p,
            SegmentEntry { segment: s, at: x.created_ms, id: x.id },
            SegmentEntry { segment: t, at: y.created_ms, id: y.id },
        ),
        (BodyModel::StreamEnd(d), BodyModel::StreamEnd(e)) => lemma_ends_commute(
            p,
            readmodel::recording_of(d.recording_cid, x.created_ms, x.id),
            readmodel::recording_of(e.recording_cid, y.created_ms, y.id),
        ),
        _ => {},
    }
}

proof fn lemma_parts_commute(m: Parts, x: RecordModel, y: RecordModel)
    requires
        x.id != y.id,
    ensures
        readmodel::parts_step(readmodel::parts_step(m, x), y) == readmodel::parts_step(readmodel::parts_step(m, y), x),
{
    if stream_of(x) is Some && stream_of(y) is Some {
        let s = stream_of(x)->0;
        let t = stream_of(y)->0;
        let p = readmodel::parts_at(m, s, x.author);
        let q = readmodel::parts_at(m, t, y.author);
        let mx = readmodel::parts_step(m, x);
        let my = readmodel::parts_step(m, y);
        assert(mx == readmodel::with_parts(m, s, x.author, added(p, x)));
        assert(my == readmodel::with_parts(m, t, y.author, added(q, y)));
        lemma_with_parts(m, s, x.author, added(p, x), t, y.author);
        lemma_with_parts(m, t, y.author, added(q, y), s, x.author);
        if s == t && x.author == y.author {
            lemma_added_commute(p, x, y);
            lemma_parts_apart(m, s, x.author, added(p, x), t, y.author, added(added(p, x), y));
            lemma_parts_apart(m, t, y.author, added(q, y), s, x.author, added(added(q, y), x));
        } else {
            lemma_parts_apart(m, s, x.author, added(p, x), t, y.author, added(q, y));
        }
    }
}

proof fn lemma_boards_commute(m: Map<Seq<char>, BoardEntry>, x: RecordModel, y: RecordModel)
    requires
        x.id != y.id,
    ensures
        readmodel::boards_step(readmodel::boards_step(m, x), y) == readmodel::boards_step(
            readmodel::boards_step(m, y),
            x,
        ),
{
    let xy = readmodel::boards_step(readmodel::boards_step(m, x), y);
    let yx = readmodel::boards_step(readmodel::boards_step(m, y), x);
    match (x.body, y.body) {
        (BodyModel::BoardCreate(p), BodyModel::BoardCreate(q)) => {
            if p.board == q.board {
                stamp::lemma_total(x.created_ms, x.id, y.created_ms, y.id);
                if m.contains_key(p.board) {
                    let held = m[p.board];
                    stamp::lemma_three(x.created_ms, x.id, y.created_ms, y.id, held.created_ms, held.claim);
                }
            }
        },
        _ => {},
    }
    assert(xy =~= yx);
}

proof fn lemma_bans_commute(m: Map<Seq<char>, Ballots>, x: RecordModel, y: RecordModel)
    requires
        x.id != y.id,
    ensures
        readmodel::ban_votes_step(readmodel::ban_votes_step(m, x), y) == readmodel::ban_votes_step(
            readmodel::ban_votes_step(m, y),
            x,
        ),
{
    let xy = readmodel::ban_votes_step(readmodel::ban_votes_step(m, x), y);
    let yx = readmodel::ban_votes_step(readmodel::ban_votes_step(m, y), x);
    match (x.body, y.body) {
        (BodyModel::BanVote(p), BodyModel::BanVote(q)) => {
            if p.board == q.board {
                lemma_ballots_commute(
                    readmodel::ballots_at(m, p.board),
                    p.target,
                    x.author,
                    Mark { value: readmodel::yes_no(p.support), at: x.created_ms, id: x.id },
                    q.target,
                    y.author,
                    Mark { value: readmodel::yes_no(q.support), at: y.created_ms, id: y.id },
                );
            }
        },
        _ => {},
    }
    assert(xy =~= yx);
}

/// Appending to the list of one key, in either order, leaves the same ids under every key.
proof fn lemma_lists_commute(
    m: Map<Seq<char>, Seq<Seq<char>>>,
    k: Seq<char>,
    a: Seq<char>,
    l: Seq<char>,
    b: Seq<char>,
)
    ensures
        ({
            let ma = m.insert(k, readmodel::list_at(m, k).push(a));
            let mb = m.insert(l, readmodel::list_at(m, l).push(b));
            same_lists(
                ma.insert(l, readmodel::list_at(ma, l).push(b)),
                mb.insert(k, readmodel::list_at(mb, k).push(a)),
            )
        }),
{
    broadcast use vstd::seq_lib::group_to_multiset_ensures;

    let ma = m.insert(k, readmodel::list_at(m, k).push(a));
    let mb = m.insert(l, readmodel::list_at(m, l).push(b));
    let xy = ma.insert(l, readmodel::list_at(ma, l).push(b));
    let yx = mb.insert(k, readmodel::list_at(mb, k).push(a));
    assert(xy.dom() =~= yx.dom());
    if k == l {
        let s = readmodel::list_at(m, k);
        assert(s.push(a).push(b).to_multiset() =~= s.push(b).push(a).to_multiset());
    }
}

proof fn lemma_same_lists_push(
    a: Map<Seq<char>, Seq<Seq<char>>>,
    b: Map<Seq<char>, Seq<Seq<char>>>,
    k: Seq<char>,
    id: Seq<char>,
)
    requires
        same_lists(a, b),
    ensures
        same_lists(
            a.insert(k, readmodel::list_at(a, k).push(id)),
            b.insert(k, readmodel::list_at(b, k).push(id)),
        ),
{
    broadcast use vstd::seq_lib::group_to_multiset_ensures;

    let x = a.insert(k, readmodel::list_at(a, k).push(id));
    let y = b.insert(k, readmodel::list_at(b, k).push(id));
    assert(x.dom() =~= y.dom());
    assert(a.contains_key(k) == b.contains_key(k));
    assert(readmodel::list_at(a, k).to_multiset() == readmodel::list_at(b, k).to_multiset());
    assert(x[k].to_multiset() =~= y[k].to_multiset());
}

/// The fold respects agreement: the same record keeps two agreeing models in agreement.
pub proof fn law_fold_respects_convergence(a: StateModel, b: StateModel, r: RecordModel)
    requires
        converged(a, b),
    ensures
        converged(readmodel::fold(a, r), readmodel::fold(b, r)),
{
    if !a.seen.contains(r.id) {
        match r.body {
            BodyModel::Post(p) => match p.parent {
                None => lemma_same_lists_push(a.board_threads, b.board_threads, p.board, r.id),
                Some(parent) => lemma_same_lists_push(a.children, b.children, parent, r.id),
            },
            _ => {},
        }
    }
}

proof fn lemma_same_lists_refl(a: Map<Seq<char>, Seq<Seq<char>>>)
    ensures
        same_lists(a, a),
{
}

/// Any two records may be folded in in either order, if one id does not name two contents.
pub proof fn law_fold_commutes(m: StateModel, x: RecordModel, y: RecordModel)
    requires
        same_by_id(x, y),
    ensures
        converged(
            readmodel::fold(readmodel::fold(m, x), y),
            readmodel::fold(readmodel::fold(m, y), x),
        ),
{
    let xy = readmodel::fold(readmodel::fold(m, x), y);
    let yx = readmodel::fold(readmodel::fold(m, y), x);
    if x.id == y.id || m.seen.contains(x.id) || m.seen.contains(y.id) {
        lemma_same_lists_refl(xy.board_threads);
        lemma_same_lists_refl(xy.children);
        if x.id == y.id {
            assert(readmodel::fold(m, x) == readmodel::fold(m, y));
        }
        assert(xy.seen =~= yx.seen);
    } else {
        assert(xy.seen =~= yx.seen);
        lemma_profiles_commute(m.profiles, x, y);
        lemma_links_commute(m.links, x, y);
        assert(xy.media =~= yx.media);
        assert(xy.posts =~= yx.posts);
        assert(xy.proposals =~= yx.proposals);
        assert(xy.documents =~= yx.documents);
        assert(xy.streams =~= yx.streams);
        lemma_parts_commute(m.parts, x, y);
        lemma_boards_commute(m.boards, x, y);
        lemma_bans_commute(m.ban_votes, x, y);
        match (x.body, y.body) {
            (BodyModel::Vote(p), BodyModel::Vote(q)) => lemma_ballots_commute(
                m.votes,
                p.target,
                x.author,
                Mark { value: readmodel::clamped(p.value), at: x.created_ms, id: x.id },
                q.target,
                y.author,
                Mark { value: readmodel::clamped(q.value), at: y.created_ms, id: y.id },
            ),
            (BodyModel::Follow(p), BodyModel::Follow(q)) => lemma_ballots_commute(
                m.follows,
                p.followee,
                x.author,
                Mark { value: readmodel::on_off(p.active), at: x.created_ms, id: x.id },
                q.followee,
                y.author,
                Mark { value: readmodel::on_off(q.active), at: y.created_ms, id: y.id },
            ),
            (BodyModel::PolicyVote(p), BodyModel::PolicyVote(q)) => lemma_ballots_commute(
                m.policy_votes,
                p.proposal,
                x.author,
                Mark { value: readmodel::yes_no(p.support), at: x.created_ms, id: x.id },
                q.proposal,
                y.author,
                Mark { value: readmodel::yes_no(q.support), at: y.created_ms, id: y.id },
            ),
            _ => {},
        }
        lemma_threads_commute(m.board_threads, x, y);
        lemma_children_commute(m.children, x, y);
    }
}

proof fn lemma_threads_commute(m: Map<Seq<char>, Seq<Seq<char>>>, x: RecordModel, y: RecordModel)
    ensures
        same_lists(
            readmodel::threads_step(readmodel::threads_step(m, x), y),
            readmodel::threads_step(readmodel::threads_step(m, y), x),
        ),
{
    match (x.body, y.body) {
        (BodyModel::Post(p), BodyModel::Post(q)) => {
            if p.parent is None && q.parent is None {
                lemma_lists_commute(m, p.board, x.id, q.board, y.id);
            }
        },
        _ => {},
    }
}

proof fn lemma_children_commute(m: Map<Seq<char>, Seq<Seq<char>>>, x: RecordModel, y: RecordModel)
    ensures
        same_lists(
            readmodel::children_step(readmodel::children_step(m, x), y),
            readmodel::children_step(readmodel::children_step(m, y), x),
        ),
{
    match (x.body, y.body) {
        (BodyModel::Post(p), BodyModel::Post(q)) => {
            if p.parent is Some && q.parent is Some {
                lemma_lists_commute(m, p.parent->0, x.id, q.parent->0, y.id);
            }
        },
        _ => {},
    }
}

proof fn lemma_converged_trans(a: StateModel, b: StateModel, c: StateModel)
    requires
        converged(a, b),
        converged(b, c),
    ensures
        converged(a, c),
{
}

/// A record may as well be folded in last.
proof fn lemma_bubble(m: StateModel, rs: Seq<RecordModel>, k: int)
    requires
        0 <= k < rs.len(),
        ids_name_content(rs),
    ensures
        converged(readmodel::fold_all(m, rs), readmodel::fold(readmodel::fold_all(m, rs.remove(k)), rs[k])),
    decreases rs.len(),
{
    let n = rs.len() as int;
    let all = readmodel::fold_all(m, rs);
    let shorter = rs.drop_last();
    if k == n - 1 {
        assert(rs.remove(k) =~= shorter);
        lemma_same_lists_refl(all.board_threads);
        lemma_same_lists_refl(all.children);
    } else {
        let x = rs[k];
        let y = rs[n - 1];
        let base = readmodel::fold_all(m, shorter.remove(k));
        lemma_fewer(rs, shorter);
        lemma_bubble(m, shorter, k);
        assert(same_by_id(rs[k], rs[n - 1]));
        law_fold_respects_convergence(readmodel::fold_all(m, shorter), readmodel::fold(base, x), y);
        law_fold_commutes(base, x, y);
        lemma_converged_trans(
            all,
            readmodel::fold(readmodel::fold(base, x), y),
            readmodel::fold(readmodel::fold(base, y), x),
        );
        let rest = rs.remove(k);
        assert(rest.drop_last() =~= shorter.remove(k));
        assert(rest.last() == y);
    }
}

/// What holds of records holds of some of them.
proof fn lemma_fewer(rs: Seq<RecordModel>, some: Seq<RecordModel>)
    requires
        ids_name_content(rs),
        forall|i: int| 0 <= i < some.len() ==> rs.contains(#[trigger] some[i]),
    ensures
        ids_name_content(some),
{
    assert forall|i: int, j: int| 0 <= i < some.len() && 0 <= j < some.len() implies same_by_id(
        #[trigger] some[i],
        #[trigger] some[j],
    ) by {
        let p = choose|p: int| 0 <= p < rs.len() && rs[p] == some[i];
        let q = choose|q: int| 0 <= q < rs.len() && rs[q] == some[j];
        assert(rs.contains(some[i]) && rs.contains(some[j]));
        assert(same_by_id(rs[p], rs[q]));
    }
}

/// The same records in another order give the same.
proof fn lemma_reordered(m: StateModel, a: Seq<RecordModel>, b: Seq<RecordModel>)
    requires
        a.to_multiset() == b.to_multiset(),
        ids_name_content(a),
    ensures
        converged(readmodel::fold_all(m, a), readmodel::fold_all(m, b)),
    decreases a.len(),
{
    broadcast use vstd::seq_lib::group_to_multiset_ensures;

    assert(a.to_multiset().len() == a.len());
    assert(b.to_multiset().len() == b.len());
    if a.len() == 0 {
        let s = readmodel::fold_all(m, a);
        lemma_same_lists_refl(s.board_threads);
        lemma_same_lists_refl(s.children);
    } else {
        let n = a.len() as int;
        let x = a[n - 1];
        assert(a.contains(x));
        assert(b.to_multiset().count(x) > 0);
        assert(b.contains(x));
        let k = choose|k: int| 0 <= k < b.len() && b[k] == x;
        let rest_a = a.drop_last();
        let rest_b = b.remove(k);
        // Every record of `b` is one of `a`.
        assert forall|j: int| 0 <= j < b.len() implies a.contains(#[trigger] b[j]) by {
            assert(b.to_multiset().count(b[j]) > 0);
        }
        lemma_fewer(a, b);
        lemma_bubble(m, b, k);
        assert(rest_a.to_multiset() =~= a.to_multiset().remove(x)) by {
            assert(a =~= rest_a.push(x));
        }
        assert(rest_b.to_multiset() =~= b.to_multiset().remove(x));
        assert forall|j: int| 0 <= j < rest_a.len() implies a.contains(#[trigger] rest_a[j]) by {
            assert(rest_a[j] == a[j]);
        }
        lemma_fewer(a, rest_a);
        lemma_reordered(m, rest_a, rest_b);
        let fa = readmodel::fold_all(m, rest_a);
        let fb = readmodel::fold_all(m, rest_b);
        law_fold_respects_convergence(fa, fb, x);
        let fbx = readmodel::fold(fb, x);
        lemma_converged_trans(readmodel::fold_all(m, a), fbx, readmodel::fold_all(m, b));
    }
}

/// The records, each where it first comes.
spec fn first_comings(rs: Seq<RecordModel>) -> Seq<RecordModel>
    decreases rs.len(),
{
    if rs.len() == 0 {
        Seq::empty()
    } else {
        let before = first_comings(rs.drop_last());
        if before.contains(rs.last()) {
            before
        } else {
            before.push(rs.last())
        }
    }
}

proof fn lemma_first_comings(m: StateModel, rs: Seq<RecordModel>)
    ensures
        first_comings(rs).no_duplicates(),
        forall|r: RecordModel| #[trigger] first_comings(rs).contains(r) <==> rs.contains(r),
        readmodel::fold_all(m, first_comings(rs)) == readmodel::fold_all(m, rs),
        forall|r: RecordModel| #[trigger] rs.contains(r) ==> readmodel::fold_all(m, rs).seen.contains(r.id),
    decreases rs.len(),
{
    let once = first_comings(rs);
    if rs.len() > 0 {
        let n = rs.len() as int;
        let shorter = rs.drop_last();
        let x = rs.last();
        let before = first_comings(shorter);
        assert(forall|i: int| 0 <= i < n - 1 ==> #[trigger] shorter[i] == rs[i]);
        assert(rs[n - 1] == x);
        lemma_first_comings(m, shorter);
        assert forall|r: RecordModel| #[trigger] once.contains(r) <==> rs.contains(r) by {
            if once.contains(r) {
                let i = choose|i: int| 0 <= i < once.len() && once[i] == r;
                if i < before.len() {
                    assert(before[i] == r);
                    assert(before.contains(r));
                    let j = choose|j: int| 0 <= j < shorter.len() && shorter[j] == r;
                    assert(rs[j] == r);
                }
            }
            if rs.contains(r) {
                let i = choose|i: int| 0 <= i < rs.len() && rs[i] == r;
                if i < n - 1 {
                    assert(shorter[i] == r);
                    assert(before.contains(r));
                }
                if before.contains(r) {
                    let j = choose|j: int| 0 <= j < before.len() && before[j] == r;
                    assert(once[j] == r);
                } else {
                    assert(once[before.len() as int] == r);
                }
            }
        }
        assert forall|r: RecordModel| #[trigger] rs.contains(r) implies readmodel::fold_all(m, rs).seen.contains(
            r.id,
        ) by {
            let i = choose|i: int| 0 <= i < rs.len() && rs[i] == r;
            if i < n - 1 {
                assert(shorter[i] == r);
                assert(shorter.contains(r));
            }
        }
        if before.contains(x) {
            assert(shorter.contains(x));
        } else {
            assert(once.drop_last() =~= before);
            assert forall|i: int, j: int| 0 <= i < once.len() && 0 <= j < once.len() && i != j implies once[i]
                != once[j] by {
                if i < before.len() {
                    assert(before.contains(once[i]));
                }
                if j < before.len() {
                    assert(before.contains(once[j]));
                }
            }
        }
    }
}

/// Convergence. Two nodes that start alike and fold in the same set of records, in whatever order and
/// however often each, agree on every profile, vote, follow, device link, stream, document, board, ban
/// vote and proposal, and hold the same posts under the same boards and parents, if among the records
/// an id always names the same content.
pub proof fn law_convergence(m: StateModel, a: Seq<RecordModel>, b: Seq<RecordModel>)
    requires
        a.to_set() == b.to_set(),
        ids_name_content(a),
    ensures
        converged(readmodel::fold_all(m, a), readmodel::fold_all(m, b)),
{
    assert forall|r: RecordModel| a.contains(r) == b.contains(r) by {
        assert(a.to_set().contains(r) <==> a.contains(r));
        assert(b.to_set().contains(r) <==> b.contains(r));
    }
    lemma_first_comings(m, a);
    lemma_first_comings(m, b);
    let x = first_comings(a);
    let y = first_comings(b);
    assert forall|i: int| 0 <= i < x.len() implies a.contains(#[trigger] x[i]) by {
        assert(x.contains(x[i]));
    }
    lemma_fewer(a, x);
    x.to_multiset_ensures();
    y.to_multiset_ensures();
    x.lemma_multiset_has_no_duplicates();
    y.lemma_multiset_has_no_duplicates();
    assert forall|r: RecordModel| x.to_multiset().count(r) == y.to_multiset().count(r) by {
        assert(x.contains(r) <==> x.to_multiset().count(r) > 0);
        assert(y.contains(r) <==> y.to_multiset().count(r) > 0);
        assert(x.contains(r) == y.contains(r));
    }
    assert(x.to_multiset() =~= y.to_multiset());
    lemma_reordered(m, x, y);
}

/// Two records exhibit two byte strings with one SHA-256 digest.
pub open spec fn collide(x: RecordModel, y: RecordModel) -> bool {
    crypto::collide(x.canonical(), y.canonical())
}

/// Valid records converge. Nodes that start alike and fold in the same set of valid records, in whatever
/// order and however often each, agree, unless two of the records break SHA-256.
pub proof fn law_valid_records_converge(m: StateModel, a: Seq<RecordModel>, b: Seq<RecordModel>)
    requires
        a.to_set() == b.to_set(),
        forall|i: int| 0 <= i < a.len() ==> record::flaw(#[trigger] a[i]) is None && a[i].fits(),
        forall|i: int, j: int| 0 <= i < a.len() && 0 <= j < a.len() ==> !collide(#[trigger] a[i], #[trigger] a[j]),
    ensures
        converged(readmodel::fold_all(m, a), readmodel::fold_all(m, b)),
{
    assert forall|i: int, j: int| 0 <= i < a.len() && 0 <= j < a.len() implies same_by_id(
        #[trigger] a[i],
        #[trigger] a[j],
    ) by {
        assert(!collide(a[i], a[j]));
        if a[i].id == a[j].id {
            record::law_same_id_same_content(a[i], a[j]);
        }
    }
    law_convergence(m, a, b);
}

/// Idempotence. Folding in a record a second time, at once or after any others, changes nothing.
pub proof fn law_fold_is_idempotent(m: StateModel, r: RecordModel, more: Seq<RecordModel>)
    ensures
        readmodel::fold(readmodel::fold_all(readmodel::fold(m, r), more), r) == readmodel::fold_all(
            readmodel::fold(m, r),
            more,
        ),
{
    lemma_seen_grows(readmodel::fold(m, r), more, r.id);
}

proof fn lemma_seen_grows(m: StateModel, rs: Seq<RecordModel>, id: Seq<char>)
    requires
        m.seen.contains(id),
    ensures
        readmodel::fold_all(m, rs).seen.contains(id),
    decreases rs.len(),
{
    if rs.len() > 0 {
        lemma_seen_grows(m, rs.drop_last(), id);
    }
}

} // verus!
