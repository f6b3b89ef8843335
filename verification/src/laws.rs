//! Laws of the read-model: what holds of it whatever records have been folded in.
use crate::ballot;
use crate::ballot::{Ballots, Mark, Marks};
use crate::convergence;
use crate::double;
use crate::governance;
use crate::model::BodyModel;
use crate::order;
use crate::people;
use crate::readmodel;
use crate::readmodel::{BoardEntry, LinkEntry, ProfileEntry, RecordingEntry, SegmentEntry, StateModel};
use crate::record::RecordModel;
use crate::stamp;
use crate::streams;
use vstd::prelude::*;

verus! {

// ----- what every state keeps -----

/// Every id in the list names a stored post, and none stands in the list twice.
pub open spec fn lists_posts(m: StateModel, list: Seq<Seq<char>>) -> bool {
    &&& list.no_duplicates()
    &&& forall|i: int| 0 <= i < list.len() ==> m.posts.contains_key(#[trigger] list[i])
}

/// Finitely many voters, each for or against.
pub open spec fn decided(marks: Marks) -> bool {
    &&& marks.dom().finite()
    &&& forall|v: Seq<char>| #[trigger] marks.contains_key(v) ==> marks[v].value == 1 || marks[v].value == -1
}

/// The read-model hangs together: what is stored was seen; each post stands exactly once, among the
/// threads of its board or among the replies to its parent; ballots are finite; and every ban vote is
/// for or against.
pub open spec fn sound(m: StateModel) -> bool {
    &&& m.seen.finite()
    &&& m.posts.dom().subset_of(m.seen)
    &&& m.media.dom().subset_of(m.seen)
    &&& m.streams.dom().subset_of(m.seen)
    &&& m.documents.dom().subset_of(m.seen)
    &&& forall|b: Seq<char>, t: Seq<char>| decided(#[trigger] governance::ban_marks(m, b, t))
    &&& m.proposals.dom().subset_of(m.seen)
    &&& forall|b: Seq<char>| #[trigger]
        m.board_threads.contains_key(b) ==> lists_posts(m, m.board_threads[b]) && forall|i: int|
            0 <= i < m.board_threads[b].len() ==> {
                let p = m.posts[#[trigger] m.board_threads[b][i]].post;
                p.parent is None && p.board == b
            }
    &&& forall|k: Seq<char>| #[trigger]
        m.children.contains_key(k) ==> lists_posts(m, m.children[k]) && forall|i: int|
            0 <= i < m.children[k].len() ==> m.posts[#[trigger] m.children[k][i]].post.parent == Some(k)
    &&& forall|id: Seq<char>| #[trigger]
        m.posts.contains_key(id) ==> match m.posts[id].post.parent {
            None => readmodel::list_at(m.board_threads, m.posts[id].post.board).contains(id),
            Some(k) => readmodel::list_at(m.children, k).contains(id),
        }
    &&& forall|t: Seq<char>| #[trigger] m.votes.contains_key(t) ==> m.votes[t].dom().finite()
}

/// A node that has seen nothing is sound.
pub proof fn law_nothing_is_sound()
    ensures
        sound(readmodel::nothing()),
{
}

/// Folding in a record keeps the read-model sound.
pub proof fn law_fold_keeps_soundness(m: StateModel, r: RecordModel)
    requires
        sound(m),
    ensures
        sound(readmodel::fold(m, r)),
{
    let after = readmodel::fold(m, r);
    lemma_sound_bans(m, r);
    if !m.seen.contains(r.id) {
        match r.body {
            BodyModel::Post(p) => {
                assert(!m.posts.contains_key(r.id));
                match p.parent {
                    None => lemma_sound_thread(m, r),
                    Some(k) => lemma_sound_reply(m, r),
                }
            },
            BodyModel::Vote(v) => {
                assert forall|t: Seq<char>| #[trigger] after.votes.contains_key(t) implies after.votes[t].dom().finite() by {
                    let marks = ballot::marks_on(m.votes, t);
                    assert(marks.dom().finite());
                }
                lemma_sound_posts(m, after);
            },
            _ => {
                lemma_sound_posts(m, after);
            },
        }
    }
}

/// Ban votes stay for or against.
proof fn lemma_sound_bans(m: StateModel, r: RecordModel)
    requires
        sound(m),
    ensures
        forall|b: Seq<char>, t: Seq<char>| decided(#[trigger] governance::ban_marks(readmodel::fold(m, r), b, t)),
{
    let after = readmodel::fold(m, r);
    assert forall|b: Seq<char>, t: Seq<char>| decided(#[trigger] governance::ban_marks(after, b, t)) by {
        assert(decided(governance::ban_marks(m, b, t)));
    }
}

/// The part of soundness that speaks of posts carries over where posts and lists do not change.
proof fn lemma_sound_posts(m: StateModel, after: StateModel)
    requires
        sound(m),
        after.posts == m.posts,
        after.board_threads == m.board_threads,
        after.children == m.children,
    ensures
        forall|b: Seq<char>| #[trigger]
            after.board_threads.contains_key(b) ==> lists_posts(after, after.board_threads[b]) && forall|i: int|
                0 <= i < after.board_threads[b].len() ==> {
                    let p = after.posts[#[trigger] after.board_threads[b][i]].post;
                    p.parent is None && p.board == b
                },
        forall|k: Seq<char>| #[trigger]
            after.children.contains_key(k) ==> lists_posts(after, after.children[k]) && forall|i: int|
                0 <= i < after.children[k].len() ==> after.posts[#[trigger] after.children[k][i]].post.parent == Some(k),
{
}

proof fn lemma_sound_thread(m: StateModel, r: RecordModel)
    requires
        sound(m),
        !m.seen.contains(r.id),
        r.body matches BodyModel::Post(p) && p.parent is None,
    ensures
        sound(readmodel::fold(m, r)),
{
    let after = readmodel::fold(m, r);
    lemma_sound_bans(m, r);
    let p = r.body->Post_0;
    let list = readmodel::list_at(m.board_threads, p.board);
    assert(!list.contains(r.id)) by {
        if list.contains(r.id) {
            let i = choose|i: int| 0 <= i < list.len() && list[i] == r.id;
            assert(m.posts.contains_key(m.board_threads[p.board][i]));
        }
    }
    order::lemma_one_more(list, r.id);
    assert(list.push(r.id).contains(r.id));
    assert forall|b: Seq<char>| #[trigger] after.board_threads.contains_key(b) implies lists_posts(
        after,
        after.board_threads[b],
    ) && forall|i: int|
        0 <= i < after.board_threads[b].len() ==> {
            let q = after.posts[#[trigger] after.board_threads[b][i]].post;
            q.parent is None && q.board == b
        } by {
        let now = after.board_threads[b];
        assert forall|i: int| 0 <= i < now.len() implies after.posts.contains_key(#[trigger] now[i]) && ({
            let q = after.posts[now[i]].post;
            q.parent is None && q.board == b
        }) by {
            if b == p.board && i == list.len() {
                assert(now[i] == r.id);
            } else {
                assert(now[i] == m.board_threads[b][i]);
                assert(m.posts.contains_key(m.board_threads[b][i]));
            }
        }
    }
    assert forall|k: Seq<char>| #[trigger] after.children.contains_key(k) implies lists_posts(after, after.children[k])
        && forall|i: int|
        0 <= i < after.children[k].len() ==> after.posts[#[trigger] after.children[k][i]].post.parent == Some(k) by {
        assert forall|i: int| 0 <= i < after.children[k].len() implies after.posts.contains_key(
            #[trigger] after.children[k][i],
        ) && after.posts[after.children[k][i]].post.parent == Some(k) by {
            assert(m.posts.contains_key(m.children[k][i]));
        }
    }
    assert forall|id: Seq<char>| #[trigger] after.posts.contains_key(id) implies match after.posts[id].post.parent {
        None => readmodel::list_at(after.board_threads, after.posts[id].post.board).contains(id),
        Some(k) => readmodel::list_at(after.children, k).contains(id),
    } by {
        if id != r.id {
            assert(m.posts.contains_key(id));
            let q = m.posts[id].post;
            if q.parent is None && q.board == p.board {
                assert(list.contains(id));
                assert(list.push(r.id).contains(id));
            }
        }
    }
}

proof fn lemma_sound_reply(m: StateModel, r: RecordModel)
    requires
        sound(m),
        !m.seen.contains(r.id),
        r.body matches BodyModel::Post(p) && p.parent is Some,
    ensures
        sound(readmodel::fold(m, r)),
{
    let after = readmodel::fold(m, r);
    lemma_sound_bans(m, r);
    let p = r.body->Post_0;
    let parent = p.parent->0;
    let list = readmodel::list_at(m.children, parent);
    assert(!list.contains(r.id)) by {
        if list.contains(r.id) {
            let i = choose|i: int| 0 <= i < list.len() && list[i] == r.id;
            assert(m.posts.contains_key(m.children[parent][i]));
        }
    }
    order::lemma_one_more(list, r.id);
    assert(list.push(r.id).contains(r.id));
    assert forall|b: Seq<char>| #[trigger] after.board_threads.contains_key(b) implies lists_posts(
        after,
        after.board_threads[b],
    ) && forall|i: int|
        0 <= i < after.board_threads[b].len() ==> {
            let q = after.posts[#[trigger] after.board_threads[b][i]].post;
            q.parent is None && q.board == b
        } by {
        assert forall|i: int| 0 <= i < after.board_threads[b].len() implies after.posts.contains_key(
            #[trigger] after.board_threads[b][i],
        ) && ({
            let q = after.posts[after.board_threads[b][i]].post;
            q.parent is None && q.board == b
        }) by {
            assert(m.posts.contains_key(m.board_threads[b][i]));
        }
    }
    assert forall|k: Seq<char>| #[trigger] after.children.contains_key(k) implies lists_posts(after, after.children[k])
        && forall|i: int|
        0 <= i < after.children[k].len() ==> after.posts[#[trigger] after.children[k][i]].post.parent == Some(k) by {
        let now = after.children[k];
        assert forall|i: int| 0 <= i < now.len() implies after.posts.contains_key(#[trigger] now[i])
            && after.posts[now[i]].post.parent == Some(k) by {
            if k == parent && i == list.len() {
                assert(now[i] == r.id);
            } else {
                assert(now[i] == m.children[k][i]);
                assert(m.posts.contains_key(m.children[k][i]));
            }
        }
    }
    assert forall|id: Seq<char>| #[trigger] after.posts.contains_key(id) implies match after.posts[id].post.parent {
        None => readmodel::list_at(after.board_threads, after.posts[id].post.board).contains(id),
        Some(k) => readmodel::list_at(after.children, k).contains(id),
    } by {
        if id != r.id {
            assert(m.posts.contains_key(id));
            let q = m.posts[id].post;
            if q.parent == Some(parent) {
                assert(list.contains(id));
                assert(list.push(r.id).contains(id));
            }
        }
    }
}

/// Every state that can be reached is sound.
pub proof fn law_reachable_states_are_sound(rs: Seq<RecordModel>)
    ensures
        sound(readmodel::fold_all(readmodel::nothing(), rs)),
    decreases rs.len(),
{
    if rs.len() > 0 {
        law_reachable_states_are_sound(rs.drop_last());
        law_fold_keeps_soundness(readmodel::fold_all(readmodel::nothing(), rs.drop_last()), rs.last());
    }
}

/// What one fold does to the ids: the record's id is remembered and no other, a record whose id was seen
/// before changes nothing at all, whatever it says, and the count grows by one otherwise.
pub proof fn law_fold_remembers(m: StateModel, r: RecordModel)
    requires
        m.seen.finite(),
    ensures
        readmodel::fold(m, r).seen == m.seen.insert(r.id),
        m.seen.contains(r.id) ==> readmodel::fold(m, r) == m,
        readmodel::fold(m, r).seen.len() == m.seen.len() + (if m.seen.contains(r.id) {
            0int
        } else {
            1
        }),
{
    assert(readmodel::fold(m, r).seen =~= m.seen.insert(r.id));
}

/// What was published stays as it was published: no record changes or removes a post, a media descriptor,
/// a version of a document, a proposal or the start of a stream that is already held.
pub proof fn law_published_stays(m: StateModel, r: RecordModel, id: Seq<char>)
    requires
        sound(m),
    ensures
        ({
            let after = readmodel::fold(m, r);
            &&& m.posts.contains_key(id) ==> after.posts.contains_key(id) && after.posts[id] == m.posts[id]
            &&& m.media.contains_key(id) ==> after.media.contains_key(id) && after.media[id] == m.media[id]
            &&& m.documents.contains_key(id) ==> after.documents.contains_key(id) && after.documents[id]
                == m.documents[id]
            &&& m.proposals.contains_key(id) ==> after.proposals.contains_key(id) && after.proposals[id]
                == m.proposals[id]
            &&& m.streams.contains_key(id) ==> after.streams.contains_key(id) && after.streams[id] == m.streams[id]
        }),
{
    if m.posts.contains_key(id) || m.media.contains_key(id) || m.documents.contains_key(id)
        || m.proposals.contains_key(id) || m.streams.contains_key(id) {
        assert(m.seen.contains(id));
    }
}

// ----- votes -----

/// A vote that is stamped later takes the place of the voter's earlier one: it is never counted twice, and
/// the tallies of all other targets stay as they are.
pub proof fn law_vote_is_counted_once(m: StateModel, r: RecordModel, other: Seq<char>)
    requires
        sound(m),
        !m.seen.contains(r.id),
        r.body is Vote,
        ({
            let marks = ballot::marks_on(m.votes, r.body->Vote_0.target);
            marks.contains_key(r.author) ==> stamp::before(
                marks[r.author].at,
                marks[r.author].id,
                r.created_ms,
                r.id,
            )
        }),
        other != r.body->Vote_0.target,
    ensures
        ({
            let after = readmodel::fold(m, r);
            let target = r.body->Vote_0.target;
            let marks = ballot::marks_on(m.votes, target);
            let value = readmodel::clamped(r.body->Vote_0.value);
            &&& people::ups_on(after, target) == people::ups_on(m, target) - (if ballot::holds(marks, r.author, 1) {
                1int
            } else {
                0
            }) + (if value == 1 {
                1int
            } else {
                0
            })
            &&& people::downs_on(after, target) == people::downs_on(m, target) - (if ballot::holds(
                marks,
                r.author,
                -1,
            ) {
                1int
            } else {
                0
            }) + (if value == -1 {
                1int
            } else {
                0
            })
            &&& people::ups_on(after, other) == people::ups_on(m, other)
            &&& people::downs_on(after, other) == people::downs_on(m, other)
        }),
{
    let target = r.body->Vote_0.target;
    let marks = ballot::marks_on(m.votes, target);
    let mark = Mark { value: readmodel::clamped(r.body->Vote_0.value), at: r.created_ms, id: r.id };
    assert(marks.dom().finite());
    ballot::lemma_count_insert(marks, r.author, mark, 1);
    ballot::lemma_count_insert(marks, r.author, mark, -1);
}

// ----- which of several records counts -----

/// What is held once something new is offered: the new takes the place of what is held only if it wins.
spec fn pick<E>(held: Option<E>, new: Option<E>, wins: spec_fn(E, E) -> bool) -> Option<E> {
    match (held, new) {
        (Some(h), Some(n)) => if wins(n, h) {
            Some(n)
        } else {
            Some(h)
        },
        (None, n) => n,
        (h, None) => h,
    }
}

/// What a node that started with nothing knows after the first `n` records.
spec fn after(rs: Seq<RecordModel>, n: int) -> StateModel {
    readmodel::fold_all(readmodel::nothing(), rs.take(n))
}

proof fn lemma_after(rs: Seq<RecordModel>, n: int)
    requires
        0 < n <= rs.len(),
    ensures
        after(rs, n) == readmodel::fold(after(rs, n - 1), rs[n - 1]),
{
    assert(rs.take(n).drop_last() =~= rs.take(n - 1));
    assert(rs.take(n).last() == rs[n - 1]);
}

/// A slot of the read-model that every record steps by `pick`.
spec fn steps<E>(
    slot: spec_fn(StateModel) -> Option<E>,
    offer: spec_fn(RecordModel) -> Option<E>,
    wins: spec_fn(E, E) -> bool,
) -> bool {
    &&& slot(readmodel::nothing()) is None
    &&& forall|m: StateModel, r: RecordModel|
        !m.seen.contains(r.id) ==> slot(#[trigger] readmodel::fold(m, r)) == pick(slot(m), offer(r), wins)
}

/// The record at `i` offers something for the slot that beats all that other records offer.
spec fn unbeaten<E>(
    offer: spec_fn(RecordModel) -> Option<E>,
    wins: spec_fn(E, E) -> bool,
    rs: Seq<RecordModel>,
    i: int,
) -> bool {
    &&& 0 <= i < rs.len()
    &&& offer(rs[i]) is Some
    &&& forall|j: int| 0 <= j < rs.len() && (#[trigger] rs[j]).id == rs[i].id ==> offer(rs[j]) == offer(rs[i])
    &&& forall|j: int|
        0 <= j < rs.len() && (#[trigger] rs[j]).id != rs[i].id && offer(rs[j]) is Some ==> wins(
            offer(rs[i])->0,
            offer(rs[j])->0,
        ) && !wins(offer(rs[j])->0, offer(rs[i])->0)
}

proof fn lemma_winner_so_far<E>(
    slot: spec_fn(StateModel) -> Option<E>,
    offer: spec_fn(RecordModel) -> Option<E>,
    wins: spec_fn(E, E) -> bool,
    rs: Seq<RecordModel>,
    i: int,
    n: int,
)
    requires
        steps(slot, offer, wins),
        unbeaten(offer, wins, rs, i),
        0 <= n <= rs.len(),
    ensures
        after(rs, n).seen.contains(rs[i].id) ==> slot(after(rs, n)) == offer(rs[i]),
        slot(after(rs, n)) is Some ==> exists|j: int|
            0 <= j < n && offer(#[trigger] rs[j]) == slot(after(rs, n)) && after(rs, n).seen.contains(rs[j].id),
        forall|j: int| 0 <= j < n ==> after(rs, n).seen.contains((#[trigger] rs[j]).id),
    decreases n,
{
    if n == 0 {
        assert(rs.take(0) =~= Seq::empty());
    } else {
        lemma_winner_so_far(slot, offer, wins, rs, i, n - 1);
        lemma_after(rs, n);
        let m = after(rs, n - 1);
        let r = rs[n - 1];
        let held = slot(m);
        if held is Some {
            let j = choose|j: int|
                0 <= j < n - 1 && offer(#[trigger] rs[j]) == held && m.seen.contains(rs[j].id);
            assert(after(rs, n).seen.contains(rs[j].id));
            if !m.seen.contains(rs[i].id) {
                assert(rs[j].id != rs[i].id);
            }
        }
        if !m.seen.contains(r.id) {
            assert(slot(after(rs, n)) == pick(held, offer(r), wins));
            if slot(after(rs, n)) == offer(r) {
                assert(offer(rs[n - 1]) == slot(after(rs, n)));
            }
        }
        assert forall|j: int| 0 <= j < n implies after(rs, n).seen.contains((#[trigger] rs[j]).id) by {
            if j < n - 1 {
                assert(m.seen.contains(rs[j].id));
            }
        }
    }
}

/// What beats all else is held in the end, in whatever order the records came.
proof fn lemma_winner<E>(
    slot: spec_fn(StateModel) -> Option<E>,
    offer: spec_fn(RecordModel) -> Option<E>,
    wins: spec_fn(E, E) -> bool,
    rs: Seq<RecordModel>,
    i: int,
)
    requires
        steps(slot, offer, wins),
        unbeaten(offer, wins, rs, i),
    ensures
        slot(readmodel::fold_all(readmodel::nothing(), rs)) == offer(rs[i]),
{
    lemma_winner_so_far(slot, offer, wins, rs, i, rs.len() as int);
    assert(rs.take(rs.len() as int) =~= rs);
}

/// What the table holds under a key.
spec fn held_at<K, E>(table: Map<K, E>, key: K) -> Option<E> {
    if table.contains_key(key) {
        Some(table[key])
    } else {
        None
    }
}

/// The record at `i` is stamped later than `r`, or they are the same record.
pub open spec fn outlasts(rs: Seq<RecordModel>, i: int, r: RecordModel) -> bool {
    r.id == rs[i].id || stamp::before(r.created_ms, r.id, rs[i].created_ms, rs[i].id)
}

/// The record at `i` is stamped earlier than `r`, or they are the same record.
pub open spec fn forestalls(rs: Seq<RecordModel>, i: int, r: RecordModel) -> bool {
    r.id == rs[i].id || stamp::before(rs[i].created_ms, rs[i].id, r.created_ms, r.id)
}

/// The id of the record at `i` names nothing else among the records.
pub open spec fn id_is_its_own(rs: Seq<RecordModel>, i: int) -> bool {
    forall|j: int| 0 <= j < rs.len() ==> convergence::same_by_id(#[trigger] rs[j], rs[i])
}

// ----- last write wins -----

/// One of the kinds of ballots that the read-model keeps.
pub enum Poll {
    /// Votes on posts and comments.
    Votes,
    /// Follows of users.
    Follows,
    /// Votes on policy proposals.
    Policies,
    /// Ban votes in one board.
    Bans { board: Seq<char> },
}

/// The ballots of a poll.
pub open spec fn poll(m: StateModel, p: Poll) -> Ballots {
    match p {
        Poll::Votes => m.votes,
        Poll::Follows => m.follows,
        Poll::Policies => m.policy_votes,
        Poll::Bans { board } => readmodel::ballots_at(m.ban_votes, board),
    }
}

/// The subject and the mark that a record casts in a poll, if it casts one.
pub open spec fn cast_of(p: Poll, r: RecordModel) -> Option<(Seq<char>, Mark)> {
    match (p, r.body) {
        (Poll::Votes, BodyModel::Vote(v)) => Some(
            (v.target, Mark { value: readmodel::clamped(v.value), at: r.created_ms, id: r.id }),
        ),
        (Poll::Follows, BodyModel::Follow(f)) => Some(
            (f.followee, Mark { value: readmodel::on_off(f.active), at: r.created_ms, id: r.id }),
        ),
        (Poll::Policies, BodyModel::PolicyVote(v)) => Some(
            (v.proposal, Mark { value: readmodel::yes_no(v.support), at: r.created_ms, id: r.id }),
        ),
        (Poll::Bans { board }, BodyModel::BanVote(b)) => if b.board == board {
            Some((b.target, Mark { value: readmodel::yes_no(b.support), at: r.created_ms, id: r.id }))
        } else {
            None
        },
        _ => None,
    }
}

/// The mark that a record casts in a poll.
pub open spec fn cast_mark(p: Poll, r: RecordModel) -> Mark {
    let (subject, mark) = cast_of(p, r)->Some_0;
    mark
}

/// The record casts a mark of `voter` on `subject` in the poll.
pub open spec fn casts(p: Poll, r: RecordModel, subject: Seq<char>, voter: Seq<char>) -> bool {
    &&& r.author == voter
    &&& cast_of(p, r) matches Some((at, mark)) && at == subject
}

proof fn lemma_poll_step(m: StateModel, p: Poll, r: RecordModel)
    requires
        !m.seen.contains(r.id),
    ensures
        poll(readmodel::fold(m, r), p) == (match cast_of(p, r) {
            Some((subject, mark)) => ballot::ballots_step(poll(m, p), subject, r.author, mark),
            None => poll(m, p),
        }),
{
}

/// Last write wins. Of all the marks that one voter casts on one subject in a poll, the one that is
/// stamped latest is held in the end, in whatever order they came; that holds of votes, follows, policy
/// votes and ban votes alike.
pub proof fn law_latest_mark_wins(p: Poll, rs: Seq<RecordModel>, i: int, subject: Seq<char>, voter: Seq<char>)
    requires
        0 <= i < rs.len(),
        id_is_its_own(rs, i),
        casts(p, rs[i], subject, voter),
        forall|j: int| 0 <= j < rs.len() && casts(p, #[trigger] rs[j], subject, voter) ==> outlasts(rs, i, rs[j]),
    ensures
        ({
            let marks = ballot::marks_on(poll(readmodel::fold_all(readmodel::nothing(), rs), p), subject);
            marks.contains_key(voter) && marks[voter] == cast_mark(p, rs[i])
        }),
{
    let slot = |m: StateModel| held_at(ballot::marks_on(poll(m, p), subject), voter);
    let offer = |r: RecordModel|
        if casts(p, r, subject, voter) {
            Some(cast_mark(p, r))
        } else {
            None
        };
    let wins = |x: Mark, y: Mark| stamp::before(y.at, y.id, x.at, x.id);
    assert forall|m: StateModel, r: RecordModel| !m.seen.contains(r.id) implies slot(#[trigger] readmodel::fold(m, r))
        == pick(slot(m), offer(r), wins) by {
        lemma_poll_step(m, p, r);
    }
    assert forall|j: int| 0 <= j < rs.len() && (#[trigger] rs[j]).id != rs[i].id && offer(rs[j]) is Some implies wins(
        offer(rs[i])->0,
        offer(rs[j])->0,
    ) && !wins(offer(rs[j])->0, offer(rs[i])->0) by {
        assert(outlasts(rs, i, rs[j]));
        stamp::lemma_total(rs[i].created_ms, rs[i].id, rs[j].created_ms, rs[j].id);
    }
    assert forall|j: int| 0 <= j < rs.len() && (#[trigger] rs[j]).id == rs[i].id implies offer(rs[j]) == offer(
        rs[i],
    ) by {
        assert(convergence::same_by_id(rs[j], rs[i]));
    }
    lemma_winner(slot, offer, wins, rs, i);
}

/// The record publishes a profile of `author`.
pub open spec fn publishes_profile(r: RecordModel, author: Seq<char>) -> bool {
    r.author == author && r.body is Profile
}

/// The newest profile wins. Of all the profiles that one author publishes, the one that is stamped
/// latest is held in the end, in whatever order they came.
pub proof fn law_latest_profile_wins(rs: Seq<RecordModel>, i: int, author: Seq<char>)
    requires
        0 <= i < rs.len(),
        id_is_its_own(rs, i),
        publishes_profile(rs[i], author),
        forall|j: int| 0 <= j < rs.len() && publishes_profile(#[trigger] rs[j], author) ==> outlasts(rs, i, rs[j]),
    ensures
        readmodel::fold_all(readmodel::nothing(), rs).profiles.contains_key(author),
        readmodel::fold_all(readmodel::nothing(), rs).profiles[author] == (ProfileEntry {
            profile: rs[i].body->Profile_0,
            updated_ms: rs[i].created_ms,
            id: rs[i].id,
        }),
{
    let slot = |m: StateModel| held_at(m.profiles, author);
    let offer = |r: RecordModel|
        if publishes_profile(r, author) {
            Some(ProfileEntry { profile: r.body->Profile_0, updated_ms: r.created_ms, id: r.id })
        } else {
            None
        };
    let wins = |x: ProfileEntry, y: ProfileEntry| stamp::before(y.updated_ms, y.id, x.updated_ms, x.id);
    assert forall|j: int| 0 <= j < rs.len() && (#[trigger] rs[j]).id != rs[i].id && offer(rs[j]) is Some implies wins(
        offer(rs[i])->0,
        offer(rs[j])->0,
    ) && !wins(offer(rs[j])->0, offer(rs[i])->0) by {
        assert(outlasts(rs, i, rs[j]));
        stamp::lemma_total(rs[i].created_ms, rs[i].id, rs[j].created_ms, rs[j].id);
    }
    assert forall|j: int| 0 <= j < rs.len() && (#[trigger] rs[j]).id == rs[i].id implies offer(rs[j]) == offer(
        rs[i],
    ) by {
        assert(convergence::same_by_id(rs[j], rs[i]));
    }
    lemma_winner(slot, offer, wins, rs, i);
}

/// The record links or unlinks the device `device`.
pub open spec fn links_device(r: RecordModel, device: Seq<char>) -> bool {
    r.author == device && r.body is DeviceLink
}

/// The newest link wins. Of all the links that one device makes, the one that is stamped latest is held
/// in the end, in whatever order they came; so a device has at most one owner.
pub proof fn law_latest_link_wins(rs: Seq<RecordModel>, i: int, device: Seq<char>)
    requires
        0 <= i < rs.len(),
        id_is_its_own(rs, i),
        links_device(rs[i], device),
        forall|j: int| 0 <= j < rs.len() && links_device(#[trigger] rs[j], device) ==> outlasts(rs, i, rs[j]),
    ensures
        readmodel::fold_all(readmodel::nothing(), rs).links.contains_key(device),
        readmodel::fold_all(readmodel::nothing(), rs).links[device] == (LinkEntry {
            link: rs[i].body->DeviceLink_0,
            updated_ms: rs[i].created_ms,
            id: rs[i].id,
        }),
{
    let slot = |m: StateModel| held_at(m.links, device);
    let offer = |r: RecordModel|
        if links_device(r, device) {
            Some(LinkEntry { link: r.body->DeviceLink_0, updated_ms: r.created_ms, id: r.id })
        } else {
            None
        };
    let wins = |x: LinkEntry, y: LinkEntry| stamp::before(y.updated_ms, y.id, x.updated_ms, x.id);
    assert forall|j: int| 0 <= j < rs.len() && (#[trigger] rs[j]).id != rs[i].id && offer(rs[j]) is Some implies wins(
        offer(rs[i])->0,
        offer(rs[j])->0,
    ) && !wins(offer(rs[j])->0, offer(rs[i])->0) by {
        assert(outlasts(rs, i, rs[j]));
        stamp::lemma_total(rs[i].created_ms, rs[i].id, rs[j].created_ms, rs[j].id);
    }
    assert forall|j: int| 0 <= j < rs.len() && (#[trigger] rs[j]).id == rs[i].id implies offer(rs[j]) == offer(
        rs[i],
    ) by {
        assert(convergence::same_by_id(rs[j], rs[i]));
    }
    lemma_winner(slot, offer, wins, rs, i);
}

// ----- first claim wins -----

/// The record claims the board name.
pub open spec fn claims_board(r: RecordModel, board: Seq<char>) -> bool {
    r.body matches BodyModel::BoardCreate(b) && b.board == board
}

/// The board that a claim sets up.
pub open spec fn board_of(r: RecordModel) -> BoardEntry {
    let b = r.body->BoardCreate_0;
    BoardEntry {
        title: b.title,
        description: b.description,
        policy: b.policy,
        created_ms: r.created_ms,
        claim: r.id,
    }
}

/// The first claim wins. Of all the claims of one board name, the earliest one, and of claims at the
/// same time the one with the smallest id, sets the board's parameters, in whatever order they came.
pub proof fn law_first_claim_wins(rs: Seq<RecordModel>, i: int, board: Seq<char>)
    requires
        0 <= i < rs.len(),
        id_is_its_own(rs, i),
        claims_board(rs[i], board),
        forall|j: int| 0 <= j < rs.len() && claims_board(#[trigger] rs[j], board) ==> forestalls(rs, i, rs[j]),
    ensures
        ({
            let m = readmodel::fold_all(readmodel::nothing(), rs);
            &&& m.boards.contains_key(board)
            &&& m.boards[board] == board_of(rs[i])
            &&& governance::board_view(m, board).title == board_of(rs[i]).title
            &&& governance::board_view(m, board).description == board_of(rs[i]).description
            &&& governance::board_view(m, board).policy == board_of(rs[i]).policy
            &&& governance::board_view(m, board).created_ms == rs[i].created_ms
        }),
{
    let slot = |m: StateModel| held_at(m.boards, board);
    let offer = |r: RecordModel|
        if claims_board(r, board) {
            Some(board_of(r))
        } else {
            None
        };
    let wins = |x: BoardEntry, y: BoardEntry| stamp::before(x.created_ms, x.claim, y.created_ms, y.claim);
    assert forall|j: int| 0 <= j < rs.len() && (#[trigger] rs[j]).id != rs[i].id && offer(rs[j]) is Some implies wins(
        offer(rs[i])->0,
        offer(rs[j])->0,
    ) && !wins(offer(rs[j])->0, offer(rs[i])->0) by {
        assert(forestalls(rs, i, rs[j]));
        stamp::lemma_total(rs[i].created_ms, rs[i].id, rs[j].created_ms, rs[j].id);
    }
    assert forall|j: int| 0 <= j < rs.len() && (#[trigger] rs[j]).id == rs[i].id implies offer(rs[j]) == offer(
        rs[i],
    ) by {
        assert(convergence::same_by_id(rs[j], rs[i]));
    }
    lemma_winner(slot, offer, wins, rs, i);
}

/// A claim of one board name leaves every other board as it is, and a claim that is stamped later than
/// the one that holds the name changes nothing of any board.
pub proof fn law_claims_keep_to_their_board(m: StateModel, r: RecordModel, board: Seq<char>)
    requires
        !claims_board(r, board) || (m.boards.contains_key(board) && stamp::before(
            m.boards[board].created_ms,
            m.boards[board].claim,
            r.created_ms,
            r.id,
        )),
    ensures
        governance::board_view(readmodel::fold(m, r), board) == governance::board_view(m, board),
{
    if m.boards.contains_key(board) {
        stamp::lemma_total(m.boards[board].created_ms, m.boards[board].claim, r.created_ms, r.id);
    }
}

// ----- streams -----

/// A stream belongs to its author: no record of anyone else changes what the stream shows.
pub proof fn law_stream_belongs_to_its_author(m: StateModel, r: RecordModel, id: Seq<char>)
    requires
        m.streams.contains_key(id),
        r.author != m.streams[id].author,
    ensures
        readmodel::fold(m, r).streams.contains_key(id),
        readmodel::fold(m, r).streams[id] == m.streams[id],
        streams::parts_of(readmodel::fold(m, r), id) == streams::parts_of(m, id),
{
}

/// A sequence number, once in a playlist, stays there; its segment gives way only to one of the same
/// author that is stamped earlier.
pub proof fn law_segments_stay(m: StateModel, r: RecordModel, id: Seq<char>, seq: u64)
    requires
        m.streams.contains_key(id),
        streams::parts_of(m, id).segments.contains_key(seq),
    ensures
        ({
            let before = streams::parts_of(m, id).segments;
            let after = streams::parts_of(readmodel::fold(m, r), id).segments;
            &&& readmodel::fold(m, r).streams.contains_key(id)
            &&& after.contains_key(seq)
            &&& after[seq] == before[seq] || (r.author == m.streams[id].author && after[seq].id == r.id
                && stamp::before(after[seq].at, after[seq].id, before[seq].at, before[seq].id))
        }),
{
}

/// The record is a segment of `author` with the sequence number `seq` of `stream`.
pub open spec fn is_segment(r: RecordModel, stream: Seq<char>, author: Seq<char>, seq: u64) -> bool {
    &&& r.author == author
    &&& r.body matches BodyModel::StreamSegment(s) && s.stream == stream && s.seq == seq
}

/// The first segment wins. Of all the segments that an author publishes under one sequence number of a
/// stream, the one that is stamped earliest is held in the end, in whatever order they came and whether
/// they came before or after the stream's start.
pub proof fn law_first_segment_wins(
    rs: Seq<RecordModel>,
    i: int,
    stream: Seq<char>,
    author: Seq<char>,
    seq: u64,
)
    requires
        0 <= i < rs.len(),
        id_is_its_own(rs, i),
        is_segment(rs[i], stream, author, seq),
        forall|j: int|
            0 <= j < rs.len() && is_segment(#[trigger] rs[j], stream, author, seq) ==> forestalls(rs, i, rs[j]),
    ensures
        ({
            let m = readmodel::fold_all(readmodel::nothing(), rs);
            let held = readmodel::parts_at(m.parts, stream, author).segments;
            held.contains_key(seq) && held[seq].segment == rs[i].body->StreamSegment_0
        }),
{
    let slot = |m: StateModel| held_at(readmodel::parts_at(m.parts, stream, author).segments, seq);
    let offer = |r: RecordModel|
        if is_segment(r, stream, author, seq) {
            Some(SegmentEntry { segment: r.body->StreamSegment_0, at: r.created_ms, id: r.id })
        } else {
            None
        };
    let wins = |x: SegmentEntry, y: SegmentEntry| stamp::before(x.at, x.id, y.at, y.id);
    assert forall|j: int| 0 <= j < rs.len() && (#[trigger] rs[j]).id != rs[i].id && offer(rs[j]) is Some implies wins(
        offer(rs[i])->0,
        offer(rs[j])->0,
    ) && !wins(offer(rs[j])->0, offer(rs[i])->0) by {
        assert(forestalls(rs, i, rs[j]));
        stamp::lemma_total(rs[i].created_ms, rs[i].id, rs[j].created_ms, rs[j].id);
    }
    assert forall|j: int| 0 <= j < rs.len() && (#[trigger] rs[j]).id == rs[i].id implies offer(rs[j]) == offer(
        rs[i],
    ) by {
        assert(convergence::same_by_id(rs[j], rs[i]));
    }
    lemma_winner(slot, offer, wins, rs, i);
}

/// The record ends `stream` for `author` and names a recording.
pub open spec fn names_recording(r: RecordModel, stream: Seq<char>, author: Seq<char>) -> bool {
    &&& r.author == author
    &&& r.body matches BodyModel::StreamEnd(e) && e.stream == stream && e.recording_cid is Some
}

/// The last recording wins. Of all the recordings that an author names of a stream, the one that is
/// stamped latest is held in the end, in whatever order they came.
pub proof fn law_latest_recording_wins(rs: Seq<RecordModel>, i: int, stream: Seq<char>, author: Seq<char>)
    requires
        0 <= i < rs.len(),
        id_is_its_own(rs, i),
        names_recording(rs[i], stream, author),
        forall|j: int| 0 <= j < rs.len() && names_recording(#[trigger] rs[j], stream, author) ==> outlasts(rs, i, rs[j]),
    ensures
        ({
            let m = readmodel::fold_all(readmodel::nothing(), rs);
            streams::recording_cid(readmodel::parts_at(m.parts, stream, author))
                == rs[i].body->StreamEnd_0.recording_cid
        }),
{
    let slot = |m: StateModel| readmodel::parts_at(m.parts, stream, author).recording;
    let offer = |r: RecordModel|
        if names_recording(r, stream, author) {
            readmodel::recording_of(r.body->StreamEnd_0.recording_cid, r.created_ms, r.id)
        } else {
            None
        };
    let wins = |x: RecordingEntry, y: RecordingEntry| stamp::before(y.at, y.id, x.at, x.id);
    assert forall|j: int| 0 <= j < rs.len() && (#[trigger] rs[j]).id != rs[i].id && offer(rs[j]) is Some implies wins(
        offer(rs[i])->0,
        offer(rs[j])->0,
    ) && !wins(offer(rs[j])->0, offer(rs[i])->0) by {
        assert(outlasts(rs, i, rs[j]));
        stamp::lemma_total(rs[i].created_ms, rs[i].id, rs[j].created_ms, rs[j].id);
    }
    assert forall|j: int| 0 <= j < rs.len() && (#[trigger] rs[j]).id == rs[i].id implies offer(rs[j]) == offer(
        rs[i],
    ) by {
        assert(convergence::same_by_id(rs[j], rs[i]));
    }
    lemma_winner(slot, offer, wins, rs, i);
}

// ----- bans -----

/// No ban without a quorum and support: where the community has banned a user from a board, at least
/// `ban_quorum` distinct voters have a vote on it, and those for the ban reach the fraction
/// `ban_support` of all of them; and where both hold, the user is banned.
pub proof fn law_ban_needs_quorum_and_support(m: StateModel, board: Seq<char>, target: Seq<char>)
    requires
        sound(m),
    ensures
        ({
            let marks = governance::ban_marks(m, board, target);
            let policy = governance::policy_of(m, board);
            governance::banned_raw(m, board, target) <==> {
                &&& marks.dom().len() > 0
                &&& marks.dom().len() >= policy.ban_quorum
                &&& double::reaches(ballot::count_of(marks, 1), policy.ban_support, marks.dom().len())
            }
        }),
{
    let marks = governance::ban_marks(m, board, target);
    assert(decided(marks));
    let ups = ballot::voters_of(marks, 1);
    let downs = ballot::voters_of(marks, -1);
    assert(ups.finite() && downs.finite());
    vstd::set_lib::lemma_set_disjoint_lens(ups, downs);
    assert(ups + downs =~= marks.dom());
}

} // verus!
