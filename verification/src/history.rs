//! History: what a reader is shown, told from the records that were published.
//!
//! The laws here speak of the records themselves, in whatever order they came, and of what is shown in
//! the end; nothing in between has to be known to read them.
use crate::ballot;
use crate::ballot::Marks;
use crate::documents;
use crate::double;
use crate::double::Double;
use crate::feed;
use crate::governance;
use crate::laws;
use crate::model::{BoardPolicy, BodyModel};
use crate::order;
use crate::people;
use crate::readmodel;
use crate::readmodel::{BoardEntry, LinkEntry, ProfileEntry, StateModel};
use crate::record::RecordModel;
use crate::stamp;
use crate::text;
use vstd::prelude::*;

verus! {

// ----- records and what a node knows of them -----

/// Records that carry one id say the same: a record is named by its content.
pub open spec fn genuine(rs: Seq<RecordModel>) -> bool {
    forall|i: int, j: int|
        0 <= i < rs.len() && 0 <= j < rs.len() && (#[trigger] rs[i]).id == (#[trigger] rs[j]).id ==> rs[i].author
            == rs[j].author && rs[i].created_ms == rs[j].created_ms && rs[i].body == rs[j].body
}

/// `a` is newer than `b`: made later, or at the same time and with the larger id.
pub open spec fn newer(a: RecordModel, b: RecordModel) -> bool {
    a.created_ms > b.created_ms || (a.created_ms == b.created_ms && text::text_before(b.id, a.id))
}

/// What a node knows that started with nothing and was given these records.
pub open spec fn known(rs: Seq<RecordModel>) -> StateModel {
    readmodel::fold_all(readmodel::nothing(), rs)
}

/// A node has seen exactly the ids of the records it was given.
proof fn lemma_seen(rs: Seq<RecordModel>)
    ensures
        forall|id: Seq<char>| #[trigger]
            known(rs).seen.contains(id) <==> exists|i: int| 0 <= i < rs.len() && (#[trigger] rs[i]).id == id,
    decreases rs.len(),
{
    if rs.len() > 0 {
        let before = rs.drop_last();
        lemma_seen(before);
        assert forall|id: Seq<char>| #[trigger] known(rs).seen.contains(id) <==> exists|i: int|
            0 <= i < rs.len() && (#[trigger] rs[i]).id == id by {
            if known(before).seen.contains(id) {
                let i = choose|i: int| 0 <= i < before.len() && (#[trigger] before[i]).id == id;
                assert(rs[i].id == id);
            }
            if exists|i: int| 0 <= i < rs.len() && (#[trigger] rs[i]).id == id {
                let i = choose|i: int| 0 <= i < rs.len() && (#[trigger] rs[i]).id == id;
                if i < before.len() {
                    assert(before[i].id == id);
                } else {
                    assert(rs.last().id == id);
                }
            }
            assert(rs[rs.len() - 1].id == rs.last().id);
        }
    }
}

/// The record at `i` offers something that wins over all that the others offer.
pub(crate) open spec fn wins_all<E>(
    offer: spec_fn(RecordModel) -> Option<E>,
    wins: spec_fn(E, E) -> bool,
    rs: Seq<RecordModel>,
    i: int,
) -> bool {
    &&& 0 <= i < rs.len()
    &&& offer(rs[i]) is Some
    &&& forall|j: int|
        0 <= j < rs.len() && (#[trigger] rs[j]).id != rs[i].id && offer(rs[j]) is Some ==> wins(
            offer(rs[i])->0,
            offer(rs[j])->0,
        )
}

/// The slot is empty at first, and a new record's offer replaces what it holds only if it wins.
pub(crate) open spec fn contested<E>(
    slot: spec_fn(StateModel) -> Option<E>,
    offer: spec_fn(RecordModel) -> Option<E>,
    wins: spec_fn(E, E) -> bool,
) -> bool {
    &&& slot(readmodel::nothing()) is None
    &&& forall|m: StateModel, r: RecordModel|
        !m.seen.contains(r.id) ==> slot(#[trigger] readmodel::fold(m, r)) == (match (slot(m), offer(r)) {
            (Some(held), Some(new)) => if wins(new, held) {
                Some(new)
            } else {
                Some(held)
            },
            (None, new) => new,
            (held, None) => held,
        })
    &&& forall|x: E, y: E, z: E| #![trigger wins(x, y), wins(y, z)] wins(x, y) && wins(y, z) ==> wins(x, z)
    &&& forall|r: RecordModel, s: RecordModel|
        #![trigger offer(r), offer(s)]
        r.id != s.id && offer(r) is Some && offer(s) is Some ==> wins(offer(r)->0, offer(s)->0) || wins(
            offer(s)->0,
            offer(r)->0,
        )
    &&& forall|r: RecordModel, s: RecordModel|
        #![trigger offer(r), offer(s)]
        r.id == s.id && r.author == s.author && r.created_ms == s.created_ms && r.body == s.body ==> offer(r) == offer(
            s,
        )
}

/// In the end the slot holds the offer that wins over all others, or nothing where nothing was offered.
pub(crate) proof fn lemma_slot<E>(
    slot: spec_fn(StateModel) -> Option<E>,
    offer: spec_fn(RecordModel) -> Option<E>,
    wins: spec_fn(E, E) -> bool,
    rs: Seq<RecordModel>,
)
    requires
        genuine(rs),
        contested(slot, offer, wins),
    ensures
        slot(known(rs)) is None ==> forall|j: int| 0 <= j < rs.len() ==> offer(#[trigger] rs[j]) is None,
        slot(known(rs)) is Some ==> exists|i: int| #[trigger]
            wins_all(offer, wins, rs, i) && offer(rs[i]) == slot(known(rs)),
    decreases rs.len(),
{
    if rs.len() > 0 {
        let before = rs.drop_last();
        let last = rs.len() - 1;
        let r = rs.last();
        let m = known(before);
        assert(rs[last] == r);
        assert(forall|j: int| 0 <= j < last ==> #[trigger] before[j] == rs[j]);
        lemma_slot(slot, offer, wins, before);
        lemma_seen(before);
        let held = slot(m);
        if m.seen.contains(r.id) {
            let k = choose|k: int| 0 <= k < before.len() && (#[trigger] before[k]).id == r.id;
            assert(rs[k].id == rs[last].id);
            assert(offer(rs[k]) == offer(r));
            if held is Some {
                let i = choose|i: int| #[trigger] wins_all(offer, wins, before, i) && offer(before[i]) == held;
                assert forall|j: int|
                    0 <= j < rs.len() && (#[trigger] rs[j]).id != rs[i].id && offer(rs[j]) is Some implies wins(
                    offer(rs[i])->0,
                    offer(rs[j])->0,
                ) by {
                    if j == last {
                        assert(before[k].id != before[i].id);
                    } else {
                        assert(before[j].id != before[i].id);
                    }
                }
                assert(wins_all(offer, wins, rs, i) && offer(rs[i]) == held);
            } else {
                assert forall|j: int| 0 <= j < rs.len() implies offer(#[trigger] rs[j]) is None by {
                    if j == last {
                        assert(offer(before[k]) is None);
                    } else {
                        assert(offer(before[j]) is None);
                    }
                }
            }
        } else {
            assert(known(rs) == readmodel::fold(m, r));
            let after = slot(known(rs));
            if held is Some {
                let i = choose|i: int| #[trigger] wins_all(offer, wins, before, i) && offer(before[i]) == held;
                assert(before[i].id != r.id) by {
                    assert(m.seen.contains(before[i].id));
                }
                if offer(r) is Some && wins(offer(r)->0, held->0) {
                    assert forall|j: int|
                        0 <= j < rs.len() && (#[trigger] rs[j]).id != rs[last].id && offer(rs[j]) is Some implies wins(
                        offer(rs[last])->0,
                        offer(rs[j])->0,
                    ) by {
                        if before[j].id == before[i].id {
                            assert(offer(rs[j]) == offer(rs[i]));
                        } else {
                            assert(wins(held->0, offer(before[j])->0));
                        }
                    }
                    assert(wins_all(offer, wins, rs, last) && offer(rs[last]) == after);
                } else {
                    assert forall|j: int|
                        0 <= j < rs.len() && (#[trigger] rs[j]).id != rs[i].id && offer(rs[j]) is Some implies wins(
                        offer(rs[i])->0,
                        offer(rs[j])->0,
                    ) by {
                        if j == last {
                            assert(offer(rs[i]) is Some && offer(r) is Some);
                        } else {
                            assert(before[j].id != before[i].id);
                        }
                    }
                    assert(wins_all(offer, wins, rs, i) && offer(rs[i]) == after);
                }
            } else {
                assert forall|j: int| 0 <= j < last implies offer(#[trigger] rs[j]) is None by {
                    assert(offer(before[j]) is None);
                }
                if offer(r) is Some {
                    assert(wins_all(offer, wins, rs, last) && offer(rs[last]) == after);
                }
            }
        }
    } else {
        assert(known(rs) == readmodel::nothing());
    }
}

// ----- what people say, last of all -----

/// Something people may speak on, again and again.
pub enum Matter {
    /// A post, comment or document: for it, against it, or neither any more.
    Content { target: Seq<char> },
    /// A user: following them, or not any more.
    User { followee: Seq<char> },
    /// Banning a user from a board: for it or against it.
    Ban { board: Seq<char>, target: Seq<char> },
    /// A policy proposal: for it or against it.
    Proposal { proposal: Seq<char> },
}

/// What a record says on a matter: 1 for it, -1 against it, 0 neither.
pub open spec fn says(r: RecordModel, matter: Matter) -> Option<int> {
    match (matter, r.body) {
        (Matter::Content { target }, BodyModel::Vote(v)) => if v.target != target {
            None
        } else if v.value > 0 {
            Some(1)
        } else if v.value < 0 {
            Some(-1)
        } else {
            Some(0)
        },
        (Matter::User { followee }, BodyModel::Follow(f)) => if f.followee != followee {
            None
        } else if f.active {
            Some(1)
        } else {
            Some(0)
        },
        (Matter::Ban { board, target }, BodyModel::BanVote(b)) => if b.board != board || b.target != target {
            None
        } else if b.support {
            Some(1)
        } else {
            Some(-1)
        },
        (Matter::Proposal { proposal }, BodyModel::PolicyVote(v)) => if v.proposal != proposal {
            None
        } else if v.support {
            Some(1)
        } else {
            Some(-1)
        },
        _ => None,
    }
}

/// The record at `i` is the last word of `who` on the matter: the newest of all that they have said on it.
pub open spec fn last_word(rs: Seq<RecordModel>, i: int, matter: Matter, who: Seq<char>) -> bool {
    &&& 0 <= i < rs.len()
    &&& rs[i].author == who
    &&& says(rs[i], matter) is Some
    &&& forall|j: int|
        0 <= j < rs.len() && (#[trigger] rs[j]).author == who && says(rs[j], matter) is Some && rs[j].id != rs[i].id
            ==> newer(rs[i], rs[j])
}

/// The last word of `who` on the matter is `value`.
pub open spec fn stands_for(rs: Seq<RecordModel>, matter: Matter, who: Seq<char>, value: int) -> bool {
    exists|i: int| #[trigger] last_word(rs, i, matter, who) && says(rs[i], matter) == Some(value)
}

/// Everyone whose last word on the matter is `value`.
pub open spec fn saying(rs: Seq<RecordModel>, matter: Matter, value: int) -> Set<Seq<char>> {
    Set::new(|who: Seq<char>| stands_for(rs, matter, who, value))
}

/// The marks that are kept on a matter.
spec fn marks_about(m: StateModel, matter: Matter) -> Marks {
    match matter {
        Matter::Content { target } => ballot::marks_on(m.votes, target),
        Matter::User { followee } => ballot::marks_on(m.follows, followee),
        Matter::Ban { board, target } => governance::ban_marks(m, board, target),
        Matter::Proposal { proposal } => ballot::marks_on(m.policy_votes, proposal),
    }
}

/// A mark is kept for exactly those who have spoken, and it is their last word.
proof fn lemma_marks(rs: Seq<RecordModel>, matter: Matter, who: Seq<char>)
    requires
        genuine(rs),
    ensures
        ({
            let marks = marks_about(known(rs), matter);
            &&& marks.contains_key(who) <==> exists|i: int|
                0 <= i < rs.len() && (#[trigger] rs[i]).author == who && says(rs[i], matter) is Some
            &&& marks.contains_key(who) ==> stands_for(rs, matter, who, marks[who].value as int)
            &&& forall|value: int| #[trigger]
                stands_for(rs, matter, who, value) ==> marks.contains_key(who) && marks[who].value == value
        }),
{
    let slot = |m: StateModel|
        if marks_about(m, matter).contains_key(who) {
            let mark = marks_about(m, matter)[who];
            Some((mark.value as int, mark.at, mark.id))
        } else {
            None
        };
    let offer = |r: RecordModel|
        if r.author == who && says(r, matter) is Some {
            Some((says(r, matter)->0, r.created_ms, r.id))
        } else {
            None
        };
    let wins = |x: (int, u64, Seq<char>), y: (int, u64, Seq<char>)|
        x.1 > y.1 || (x.1 == y.1 && text::text_before(y.2, x.2));
    assert(contested(slot, offer, wins)) by {
        assert forall|x: (int, u64, Seq<char>), y: (int, u64, Seq<char>), z: (int, u64, Seq<char>)|
            #![trigger wins(x, y), wins(y, z)]
            wins(x, y) && wins(y, z) implies wins(x, z) by {
            stamp::lemma_transitive(z.1, z.2, y.1, y.2, x.1, x.2);
        }
        assert forall|r: RecordModel, s: RecordModel|
            #![trigger offer(r), offer(s)]
            r.id != s.id && offer(r) is Some && offer(s) is Some implies wins(offer(r)->0, offer(s)->0) || wins(
            offer(s)->0,
            offer(r)->0,
        ) by {
            stamp::lemma_total(r.created_ms, r.id, s.created_ms, s.id);
        }
        assert forall|m: StateModel, r: RecordModel| !m.seen.contains(r.id) implies slot(
            #[trigger] readmodel::fold(m, r),
        ) == (match (slot(m), offer(r)) {
            (Some(held), Some(new)) => if wins(new, held) {
                Some(new)
            } else {
                Some(held)
            },
            (None, new) => new,
            (held, None) => held,
        }) by {}
    }
    lemma_slot(slot, offer, wins, rs);
    let m = known(rs);
    let marks = marks_about(m, matter);
    if slot(m) is Some {
        let i = choose|i: int| #[trigger] wins_all(offer, wins, rs, i) && offer(rs[i]) == slot(m);
        assert(offer(rs[i]) is Some);
        assert forall|j: int|
            0 <= j < rs.len() && (#[trigger] rs[j]).author == who && says(rs[j], matter) is Some && rs[j].id
                != rs[i].id implies newer(rs[i], rs[j]) by {
            assert(offer(rs[j]) is Some);
        }
        assert(last_word(rs, i, matter, who));
        assert forall|value: int| #[trigger] stands_for(rs, matter, who, value) implies marks[who].value == value by {
            let k = choose|k: int| #[trigger] last_word(rs, k, matter, who) && says(rs[k], matter) == Some(value);
            if rs[k].id != rs[i].id {
                assert(newer(rs[i], rs[k]) && newer(rs[k], rs[i]));
                stamp::lemma_total(rs[i].created_ms, rs[i].id, rs[k].created_ms, rs[k].id);
            }
        }
    } else {
        assert forall|j: int| 0 <= j < rs.len() && (#[trigger] rs[j]).author == who implies says(rs[j], matter) is None by {
            assert(offer(rs[j]) is None);
        }
    }
}

/// The tallies of a matter count those whose last word it is.
proof fn lemma_tally(rs: Seq<RecordModel>, matter: Matter, value: int)
    requires
        genuine(rs),
    ensures
        ballot::voters_of(marks_about(known(rs), matter), value) == saying(rs, matter, value),
{
    let marks = marks_about(known(rs), matter);
    assert forall|who: Seq<char>| ballot::voters_of(marks, value).contains(who) <==> saying(rs, matter, value).contains(
        who,
    ) by {
        lemma_marks(rs, matter, who);
    }
    assert(ballot::voters_of(marks, value) =~= saying(rs, matter, value));
}

/// A post shows its votes: as many ups as there are people whose last vote on it is for it, however
/// strongly, as many downs as there are people whose last vote is against it, and the ups less the downs
/// as its score.
pub proof fn law_post_shows_its_votes(rs: Seq<RecordModel>, id: Seq<char>)
    requires
        genuine(rs),
    ensures
        ({
            let v = feed::post_view(known(rs), id);
            &&& v.ups == saying(rs, Matter::Content { target: id }, 1).len()
            &&& v.downs == saying(rs, Matter::Content { target: id }, -1).len()
            &&& v.score == v.ups - v.downs
        }),
{
    lemma_tally(rs, Matter::Content { target: id }, 1);
    lemma_tally(rs, Matter::Content { target: id }, -1);
}

/// A version of a document shows its votes as a post does.
pub proof fn law_document_shows_its_votes(rs: Seq<RecordModel>, id: Seq<char>)
    requires
        genuine(rs),
    ensures
        ({
            let v = documents::document_view(known(rs), id);
            &&& v.ups == saying(rs, Matter::Content { target: id }, 1).len()
            &&& v.downs == saying(rs, Matter::Content { target: id }, -1).len()
            &&& v.score == v.ups - v.downs
        }),
{
    lemma_tally(rs, Matter::Content { target: id }, 1);
    lemma_tally(rs, Matter::Content { target: id }, -1);
}

/// A proposal shows how many people are for it and how many against it, by their last word.
pub proof fn law_proposal_shows_its_votes(rs: Seq<RecordModel>, id: Seq<char>)
    requires
        genuine(rs),
    ensures
        ({
            let v = governance::proposal_view(known(rs), id);
            &&& v.favor == saying(rs, Matter::Proposal { proposal: id }, 1).len()
            &&& v.against == saying(rs, Matter::Proposal { proposal: id }, -1).len()
        }),
{
    lemma_tally(rs, Matter::Proposal { proposal: id }, 1);
    lemma_tally(rs, Matter::Proposal { proposal: id }, -1);
}

// ----- who follows whom -----

/// Someone follows exactly those whom they last said they follow, and their followers are exactly those
/// who last said so of them.
pub proof fn law_follows_are_last_words(rs: Seq<RecordModel>, follower: Seq<char>, followee: Seq<char>)
    requires
        genuine(rs),
    ensures
        people::followed_by(known(rs), follower).contains(followee) <==> stands_for(
            rs,
            Matter::User { followee },
            follower,
            1,
        ),
        people::followers_of(known(rs), followee) == saying(rs, Matter::User { followee }, 1),
        feed::follows(known(rs), follower, followee) <==> stands_for(rs, Matter::User { followee }, follower, 1),
{
    lemma_marks(rs, Matter::User { followee }, follower);
    lemma_tally(rs, Matter::User { followee }, 1);
}

// ----- what was published -----

/// A post is known exactly where it was published, and it is shown as it was published.
pub proof fn law_posts_are_shown_as_published(rs: Seq<RecordModel>, id: Seq<char>)
    requires
        genuine(rs),
    ensures
        known(rs).posts.contains_key(id) <==> exists|i: int|
            0 <= i < rs.len() && (#[trigger] rs[i]).id == id && rs[i].body is Post,
        forall|i: int|
            0 <= i < rs.len() && (#[trigger] rs[i]).id == id && rs[i].body is Post ==> {
                let v = feed::post_view(known(rs), id);
                let p = rs[i].body->Post_0;
                &&& v.id == id
                &&& v.author == rs[i].author
                &&& v.created_ms == rs[i].created_ms
                &&& v.board == p.board
                &&& v.parent == p.parent
                &&& v.title == p.title
                &&& v.body == p.body
                &&& v.media == p.media
            },
{
    let slot = |m: StateModel|
        if m.posts.contains_key(id) {
            Some(m.posts[id])
        } else {
            None
        };
    let offer = |r: RecordModel|
        if r.id == id && r.body is Post {
            Some(readmodel::PostEntry { author: r.author, created_ms: r.created_ms, post: r.body->Post_0 })
        } else {
            None
        };
    let wins = |x: readmodel::PostEntry, y: readmodel::PostEntry| true;
    lemma_slot(slot, offer, wins, rs);
    let m = known(rs);
    if slot(m) is Some {
        let i = choose|i: int| #[trigger] wins_all(offer, wins, rs, i) && offer(rs[i]) == slot(m);
        assert(offer(rs[i]) is Some);
        assert forall|j: int| 0 <= j < rs.len() && (#[trigger] rs[j]).id == id && rs[j].body is Post implies offer(
            rs[j],
        ) == slot(m) by {
            assert(rs[j].id == rs[i].id);
        }
    } else {
        assert forall|j: int| 0 <= j < rs.len() && (#[trigger] rs[j]).id == id implies !(rs[j].body is Post) by {
            assert(offer(rs[j]) is None);
        }
    }
}

/// A media descriptor is known exactly where it was published, and as it was published.
pub proof fn law_media_are_shown_as_published(rs: Seq<RecordModel>, id: Seq<char>)
    requires
        genuine(rs),
    ensures
        known(rs).media.contains_key(id) <==> exists|i: int|
            0 <= i < rs.len() && (#[trigger] rs[i]).id == id && rs[i].body is Media,
        forall|i: int|
            0 <= i < rs.len() && (#[trigger] rs[i]).id == id && rs[i].body is Media ==> {
                let e = known(rs).media[id];
                &&& e.author == rs[i].author
                &&& e.created_ms == rs[i].created_ms
                &&& e.media == rs[i].body->Media_0
            },
{
    let slot = |m: StateModel|
        if m.media.contains_key(id) {
            Some(m.media[id])
        } else {
            None
        };
    let offer = |r: RecordModel|
        if r.id == id && r.body is Media {
            Some(readmodel::MediaEntry { author: r.author, created_ms: r.created_ms, media: r.body->Media_0 })
        } else {
            None
        };
    let wins = |x: readmodel::MediaEntry, y: readmodel::MediaEntry| true;
    lemma_slot(slot, offer, wins, rs);
    let m = known(rs);
    if slot(m) is Some {
        let i = choose|i: int| #[trigger] wins_all(offer, wins, rs, i) && offer(rs[i]) == slot(m);
        assert(offer(rs[i]) is Some);
        assert forall|j: int| 0 <= j < rs.len() && (#[trigger] rs[j]).id == id && rs[j].body is Media implies offer(
            rs[j],
        ) == slot(m) by {
            assert(rs[j].id == rs[i].id);
        }
    } else {
        assert forall|j: int| 0 <= j < rs.len() && (#[trigger] rs[j]).id == id implies !(rs[j].body is Media) by {
            assert(offer(rs[j]) is None);
        }
    }
}

/// A version of a document is known exactly where it was published, and it is shown as it was published; it
/// belongs to the series it names, or starts one under its own id.
pub proof fn law_documents_are_shown_as_published(rs: Seq<RecordModel>, id: Seq<char>)
    requires
        genuine(rs),
    ensures
        known(rs).documents.contains_key(id) <==> exists|i: int|
            0 <= i < rs.len() && (#[trigger] rs[i]).id == id && rs[i].body is Document,
        forall|i: int|
            0 <= i < rs.len() && (#[trigger] rs[i]).id == id && rs[i].body is Document ==> {
                let v = documents::document_view(known(rs), id);
                let d = rs[i].body->Document_0;
                &&& v.id == id
                &&& v.author == rs[i].author
                &&& v.created_ms == rs[i].created_ms
                &&& v.document == d
                &&& v.series == (if d.series is Some {
                    d.series->0
                } else {
                    id
                })
            },
{
    let slot = |m: StateModel|
        if m.documents.contains_key(id) {
            Some(m.documents[id])
        } else {
            None
        };
    let offer = |r: RecordModel|
        if r.id == id && r.body is Document {
            Some(readmodel::DocumentEntry { author: r.author, created_ms: r.created_ms, document: r.body->Document_0 })
        } else {
            None
        };
    let wins = |x: readmodel::DocumentEntry, y: readmodel::DocumentEntry| true;
    lemma_slot(slot, offer, wins, rs);
    let m = known(rs);
    if slot(m) is Some {
        let i = choose|i: int| #[trigger] wins_all(offer, wins, rs, i) && offer(rs[i]) == slot(m);
        assert(offer(rs[i]) is Some);
        assert forall|j: int| 0 <= j < rs.len() && (#[trigger] rs[j]).id == id && rs[j].body is Document implies offer(
            rs[j],
        ) == slot(m) by {
            assert(rs[j].id == rs[i].id);
        }
    } else {
        assert forall|j: int| 0 <= j < rs.len() && (#[trigger] rs[j]).id == id implies !(rs[j].body is Document) by {
            assert(offer(rs[j]) is None);
        }
    }
}

/// A proposal is known exactly where it was published, and it is shown as it was published.
pub proof fn law_proposals_are_shown_as_published(rs: Seq<RecordModel>, id: Seq<char>)
    requires
        genuine(rs),
    ensures
        known(rs).proposals.contains_key(id) <==> exists|i: int|
            0 <= i < rs.len() && (#[trigger] rs[i]).id == id && rs[i].body is PolicyProposal,
        forall|i: int|
            0 <= i < rs.len() && (#[trigger] rs[i]).id == id && rs[i].body is PolicyProposal ==> {
                let v = governance::proposal_view(known(rs), id);
                let p = rs[i].body->PolicyProposal_0;
                &&& v.id == id
                &&& v.author == rs[i].author
                &&& v.created_ms == rs[i].created_ms
                &&& v.board == p.board
                &&& v.title == p.title
                &&& v.body == p.body
            },
{
    let slot = |m: StateModel|
        if m.proposals.contains_key(id) {
            Some(m.proposals[id])
        } else {
            None
        };
    let offer = |r: RecordModel|
        if r.id == id && r.body is PolicyProposal {
            Some(readmodel::ProposalEntry { author: r.author, created_ms: r.created_ms, proposal: r.body->PolicyProposal_0 })
        } else {
            None
        };
    let wins = |x: readmodel::ProposalEntry, y: readmodel::ProposalEntry| true;
    lemma_slot(slot, offer, wins, rs);
    let m = known(rs);
    if slot(m) is Some {
        let i = choose|i: int| #[trigger] wins_all(offer, wins, rs, i) && offer(rs[i]) == slot(m);
        assert(offer(rs[i]) is Some);
        assert forall|j: int| 0 <= j < rs.len() && (#[trigger] rs[j]).id == id && rs[j].body is PolicyProposal implies offer(
            rs[j],
        ) == slot(m) by {
            assert(rs[j].id == rs[i].id);
        }
    } else {
        assert forall|j: int| 0 <= j < rs.len() && (#[trigger] rs[j]).id == id implies !(rs[j].body is PolicyProposal) by {
            assert(offer(rs[j]) is None);
        }
    }
}

/// A stream is known exactly where it was started, and as it was started.
pub proof fn law_streams_are_known_as_started(rs: Seq<RecordModel>, id: Seq<char>)
    requires
        genuine(rs),
    ensures
        known(rs).streams.contains_key(id) <==> exists|i: int|
            0 <= i < rs.len() && (#[trigger] rs[i]).id == id && rs[i].body is StreamStart,
        forall|i: int|
            0 <= i < rs.len() && (#[trigger] rs[i]).id == id && rs[i].body is StreamStart ==> {
                let e = known(rs).streams[id];
                &&& e.author == rs[i].author
                &&& e.created_ms == rs[i].created_ms
                &&& e.start == rs[i].body->StreamStart_0
            },
{
    let slot = |m: StateModel|
        if m.streams.contains_key(id) {
            Some(m.streams[id])
        } else {
            None
        };
    let offer = |r: RecordModel|
        if r.id == id && r.body is StreamStart {
            Some(readmodel::StreamEntry { author: r.author, created_ms: r.created_ms, start: r.body->StreamStart_0 })
        } else {
            None
        };
    let wins = |x: readmodel::StreamEntry, y: readmodel::StreamEntry| false;
    lemma_slot(slot, offer, wins, rs);
    let m = known(rs);
    if slot(m) is Some {
        let i = choose|i: int| #[trigger] wins_all(offer, wins, rs, i) && offer(rs[i]) == slot(m);
        assert(offer(rs[i]) is Some);
        assert forall|j: int| 0 <= j < rs.len() && (#[trigger] rs[j]).id == id && rs[j].body is StreamStart implies offer(
            rs[j],
        ) == slot(m) by {
            assert(rs[j].id == rs[i].id);
        }
    } else {
        assert forall|j: int| 0 <= j < rs.len() && (#[trigger] rs[j]).id == id implies !(rs[j].body is StreamStart) by {
            assert(offer(rs[j]) is None);
        }
    }
}

/// The published replies to a post.
pub open spec fn replies(rs: Seq<RecordModel>, parent: Seq<char>) -> Set<Seq<char>> {
    Set::new(
        |id: Seq<char>|
            exists|i: int|
                0 <= i < rs.len() && (#[trigger] rs[i]).id == id && (rs[i].body matches BodyModel::Post(p) && p.parent
                    == Some(parent)),
    )
}

/// A post shows how many replies to it were published, each counted once.
pub proof fn law_post_counts_its_replies(rs: Seq<RecordModel>, id: Seq<char>)
    requires
        genuine(rs),
    ensures
        feed::post_view(known(rs), id).reply_count == replies(rs, id).len(),
{
    let m = known(rs);
    laws::law_reachable_states_are_sound(rs);
    let list = readmodel::list_at(m.children, id);
    assert forall|x: Seq<char>| list.contains(x) <==> replies(rs, id).contains(x) by {
        law_posts_are_shown_as_published(rs, x);
        if list.contains(x) {
            let k = choose|k: int| 0 <= k < list.len() && list[k] == x;
            assert(m.posts.contains_key(m.children[id][k]));
            let i = choose|i: int| 0 <= i < rs.len() && (#[trigger] rs[i]).id == x && rs[i].body is Post;
            assert(feed::post_view(m, x).parent == rs[i].body->Post_0.parent);
        }
        if replies(rs, id).contains(x) {
            let i = choose|i: int|
                0 <= i < rs.len() && (#[trigger] rs[i]).id == x && (rs[i].body matches BodyModel::Post(p) && p.parent
                    == Some(id));
            assert(feed::post_view(m, x).parent == Some(id));
            assert(m.posts.contains_key(x));
        }
    }
    assert(list.to_set() =~= replies(rs, id));
    list.unique_seq_to_set();
}

// ----- boards -----

/// The record claims the board name.
pub open spec fn claims(r: RecordModel, board: Seq<char>) -> bool {
    r.body matches BodyModel::BoardCreate(b) && b.board == board
}

/// The record at `i` is the first claim of the board name: all others are newer.
pub open spec fn first_claim(rs: Seq<RecordModel>, i: int, board: Seq<char>) -> bool {
    &&& 0 <= i < rs.len()
    &&& claims(rs[i], board)
    &&& forall|j: int|
        0 <= j < rs.len() && claims(#[trigger] rs[j], board) && rs[j].id != rs[i].id ==> newer(rs[j], rs[i])
}

/// A board exists once its name is claimed, and is what its first claim says. A board whose name nobody
/// has claimed is blank: six hours of grace, a quorum of ten, 0.66 support for a ban and no trust floors.
pub proof fn law_board_is_its_first_claim(rs: Seq<RecordModel>, board: Seq<char>)
    requires
        genuine(rs),
    ensures
        ({
            let v = governance::board_view(known(rs), board);
            &&& v.board == board
            &&& v.policy == governance::policy_of(known(rs), board)
            &&& known(rs).boards.contains_key(board) <==> exists|i: int|
                0 <= i < rs.len() && claims(#[trigger] rs[i], board)
            &&& known(rs).boards.contains_key(board) ==> exists|i: int| #[trigger] first_claim(rs, i, board)
            &&& forall|i: int| #[trigger]
                first_claim(rs, i, board) ==> {
                    let b = rs[i].body->BoardCreate_0;
                    &&& v.title == b.title
                    &&& v.description == b.description
                    &&& v.policy == b.policy
                    &&& v.created_ms == rs[i].created_ms
                }
            &&& !known(rs).boards.contains_key(board) ==> {
                &&& v.title.len() == 0
                &&& v.description.len() == 0
                &&& v.created_ms == 0
                &&& v.policy == (BoardPolicy {
                    grace_secs: 21600,
                    ban_support: Double { bits: 0x3FE5_1EB8_51EB_851F },
                    ban_quorum: 10,
                    min_trust_to_post: Double { bits: 0 },
                    min_trust_to_vote: Double { bits: 0 },
                })
            }
        }),
{
    let slot = |m: StateModel|
        if m.boards.contains_key(board) {
            Some(m.boards[board])
        } else {
            None
        };
    let offer = |r: RecordModel|
        if claims(r, board) {
            let b = r.body->BoardCreate_0;
            Some(
                BoardEntry {
                    title: b.title,
                    description: b.description,
                    policy: b.policy,
                    created_ms: r.created_ms,
                    claim: r.id,
                },
            )
        } else {
            None
        };
    let wins = |x: BoardEntry, y: BoardEntry|
        y.created_ms > x.created_ms || (y.created_ms == x.created_ms && text::text_before(x.claim, y.claim));
    assert(contested(slot, offer, wins)) by {
        assert forall|x: BoardEntry, y: BoardEntry, z: BoardEntry|
            #![trigger wins(x, y), wins(y, z)]
            wins(x, y) && wins(y, z) implies wins(x, z) by {
            stamp::lemma_transitive(x.created_ms, x.claim, y.created_ms, y.claim, z.created_ms, z.claim);
        }
        assert forall|r: RecordModel, s: RecordModel|
            #![trigger offer(r), offer(s)]
            r.id != s.id && offer(r) is Some && offer(s) is Some implies wins(offer(r)->0, offer(s)->0) || wins(
            offer(s)->0,
            offer(r)->0,
        ) by {
            stamp::lemma_total(r.created_ms, r.id, s.created_ms, s.id);
        }
    }
    lemma_slot(slot, offer, wins, rs);
    let m = known(rs);
    if slot(m) is Some {
        let i = choose|i: int| #[trigger] wins_all(offer, wins, rs, i) && offer(rs[i]) == slot(m);
        assert(offer(rs[i]) is Some);
        assert forall|j: int|
            0 <= j < rs.len() && claims(#[trigger] rs[j], board) && rs[j].id != rs[i].id implies newer(rs[j], rs[i]) by {
            assert(offer(rs[j]) is Some);
        }
        assert(first_claim(rs, i, board));
        assert forall|k: int| #[trigger] first_claim(rs, k, board) implies offer(rs[k]) == slot(m) by {
            if rs[k].id != rs[i].id {
                assert(newer(rs[k], rs[i]) && newer(rs[i], rs[k]));
                stamp::lemma_total(rs[i].created_ms, rs[i].id, rs[k].created_ms, rs[k].id);
            }
        }
    } else {
        assert forall|j: int| 0 <= j < rs.len() implies !claims(#[trigger] rs[j], board) by {
            assert(offer(rs[j]) is None);
        }
    }
}

/// A community bans by vote: someone is banned from a board exactly where at least its quorum of people
/// have a last word on banning them, at least one, and enough of these are for it.
pub proof fn law_bans_are_voted(rs: Seq<RecordModel>, board: Seq<char>, target: Seq<char>)
    requires
        genuine(rs),
    ensures
        ({
            let matter = Matter::Ban { board, target };
            let support = saying(rs, matter, 1).len();
            let oppose = saying(rs, matter, -1).len();
            let policy = governance::board_view(known(rs), board).policy;
            governance::banned_raw(known(rs), board, target) <==> support + oppose > 0 && support + oppose
                >= policy.ban_quorum && double::reaches(support, policy.ban_support, support + oppose)
        }),
{
    lemma_tally(rs, Matter::Ban { board, target }, 1);
    lemma_tally(rs, Matter::Ban { board, target }, -1);
}

/// The standing of a user in a board counts the last words for and against banning them.
pub proof fn law_standing_counts_last_words(
    rs: Seq<RecordModel>,
    board: Seq<char>,
    target: Seq<char>,
    standing: governance::BanStanding,
)
    requires
        genuine(rs),
        governance::standing_is(known(rs), board, target, standing),
    ensures
        standing.board@ == board,
        standing.target@ == target,
        standing.support == saying(rs, Matter::Ban { board, target }, 1).len(),
        standing.oppose == saying(rs, Matter::Ban { board, target }, -1).len(),
        standing.banned_raw <==> standing.support + standing.oppose > 0 && standing.support + standing.oppose
            >= governance::board_view(known(rs), board).policy.ban_quorum && double::reaches(
            standing.support as nat,
            governance::board_view(known(rs), board).policy.ban_support,
            (standing.support + standing.oppose) as nat,
        ),
{
    law_bans_are_voted(rs, board, target);
    lemma_tally(rs, Matter::Ban { board, target }, 1);
    lemma_tally(rs, Matter::Ban { board, target }, -1);
}

/// The ballots on a ban hold the last word of everyone who has spoken, each once.
pub proof fn law_ban_ballots_are_last_words(
    rs: Seq<RecordModel>,
    board: Seq<char>,
    target: Seq<char>,
    ballots: Seq<people::BanBallot>,
    who: Seq<char>,
)
    requires
        genuine(rs),
        people::weighs(known(rs), board, target, ballots),
    ensures
        forall|i: int|
            0 <= i < ballots.len() ==> stands_for(
                rs,
                Matter::Ban { board, target },
                (#[trigger] ballots[i]).voter@,
                if ballots[i].support {
                    1
                } else {
                    -1
                },
            ),
        forall|i: int, j: int|
            0 <= i < j < ballots.len() ==> (#[trigger] ballots[i]).voter@ != (#[trigger] ballots[j]).voter@,
        (exists|i: int| 0 <= i < ballots.len() && (#[trigger] ballots[i]).voter@ == who) <==> (exists|j: int|
            0 <= j < rs.len() && (#[trigger] rs[j]).author == who && says(rs[j], Matter::Ban { board, target }) is Some),
{
    let matter = Matter::Ban { board, target };
    let marks = governance::ban_marks(known(rs), board, target);
    let voters = ballots.map_values(|b: people::BanBallot| b.voter@);
    assert forall|i: int| 0 <= i < ballots.len() implies stands_for(
        rs,
        matter,
        (#[trigger] ballots[i]).voter@,
        if ballots[i].support {
            1
        } else {
            -1
        },
    ) by {
        let voter = ballots[i].voter@;
        assert(voters[i] == voter);
        assert(voters.to_set().contains(voter));
        lemma_marks(rs, matter, voter);
        let k = choose|k: int|
            #[trigger] last_word(rs, k, matter, voter) && says(rs[k], matter) == Some(marks[voter].value as int);
        assert(says(rs[k], matter) == Some(1int) || says(rs[k], matter) == Some(-1int));
    }
    assert forall|i: int, j: int| 0 <= i < j < ballots.len() implies (#[trigger] ballots[i]).voter@ != (
    #[trigger] ballots[j]).voter@ by {
        assert(voters[i] == ballots[i].voter@ && voters[j] == ballots[j].voter@);
    }
    lemma_marks(rs, matter, who);
    if exists|i: int| 0 <= i < ballots.len() && (#[trigger] ballots[i]).voter@ == who {
        let i = choose|i: int| 0 <= i < ballots.len() && (#[trigger] ballots[i]).voter@ == who;
        assert(voters[i] == who);
        assert(voters.to_set().contains(who));
    }
    if marks.contains_key(who) {
        assert(voters.to_set().contains(who));
        let i = choose|i: int| 0 <= i < voters.len() && voters[i] == who;
        assert(ballots[i].voter@ == who);
    }
}

// ----- profiles and devices -----

/// The record at `i` is the newest profile of `who`.
pub open spec fn newest_profile(rs: Seq<RecordModel>, i: int, who: Seq<char>) -> bool {
    &&& 0 <= i < rs.len()
    &&& rs[i].author == who
    &&& rs[i].body is Profile
    &&& forall|j: int|
        0 <= j < rs.len() && (#[trigger] rs[j]).author == who && rs[j].body is Profile && rs[j].id != rs[i].id
            ==> newer(rs[i], rs[j])
}

/// Whoever has published a profile has one, and it is their newest.
pub proof fn law_profile_is_the_newest(rs: Seq<RecordModel>, who: Seq<char>)
    requires
        genuine(rs),
    ensures
        known(rs).profiles.contains_key(who) <==> exists|i: int|
            0 <= i < rs.len() && (#[trigger] rs[i]).author == who && rs[i].body is Profile,
        known(rs).profiles.contains_key(who) ==> exists|i: int| #[trigger] newest_profile(rs, i, who),
        forall|i: int| #[trigger]
            newest_profile(rs, i, who) ==> known(rs).profiles.contains_key(who) && known(rs).profiles[who].profile
                == rs[i].body->Profile_0 && known(rs).profiles[who].updated_ms == rs[i].created_ms,
{
    let slot = |m: StateModel|
        if m.profiles.contains_key(who) {
            Some(m.profiles[who])
        } else {
            None
        };
    let offer = |r: RecordModel|
        if r.author == who && r.body is Profile {
            Some(ProfileEntry { profile: r.body->Profile_0, updated_ms: r.created_ms, id: r.id })
        } else {
            None
        };
    let wins = |x: ProfileEntry, y: ProfileEntry|
        x.updated_ms > y.updated_ms || (x.updated_ms == y.updated_ms && text::text_before(y.id, x.id));
    assert(contested(slot, offer, wins)) by {
        assert forall|x: ProfileEntry, y: ProfileEntry, z: ProfileEntry|
            #![trigger wins(x, y), wins(y, z)]
            wins(x, y) && wins(y, z) implies wins(x, z) by {
            stamp::lemma_transitive(z.updated_ms, z.id, y.updated_ms, y.id, x.updated_ms, x.id);
        }
        assert forall|r: RecordModel, s: RecordModel|
            #![trigger offer(r), offer(s)]
            r.id != s.id && offer(r) is Some && offer(s) is Some implies wins(offer(r)->0, offer(s)->0) || wins(
            offer(s)->0,
            offer(r)->0,
        ) by {
            stamp::lemma_total(r.created_ms, r.id, s.created_ms, s.id);
        }
    }
    lemma_slot(slot, offer, wins, rs);
    let m = known(rs);
    if slot(m) is Some {
        let i = choose|i: int| #[trigger] wins_all(offer, wins, rs, i) && offer(rs[i]) == slot(m);
        assert(offer(rs[i]) is Some);
        assert forall|j: int|
            0 <= j < rs.len() && (#[trigger] rs[j]).author == who && rs[j].body is Profile && rs[j].id
                != rs[i].id implies newer(rs[i], rs[j]) by {
            assert(offer(rs[j]) is Some);
        }
        assert(newest_profile(rs, i, who));
        assert forall|k: int| #[trigger] newest_profile(rs, k, who) implies offer(rs[k]) == slot(m) by {
            if rs[k].id != rs[i].id {
                assert(newer(rs[i], rs[k]) && newer(rs[k], rs[i]));
                stamp::lemma_total(rs[i].created_ms, rs[i].id, rs[k].created_ms, rs[k].id);
            }
        }
    } else {
        assert forall|j: int| 0 <= j < rs.len() && (#[trigger] rs[j]).author == who implies !(rs[j].body is Profile) by {
            assert(offer(rs[j]) is None);
        }
    }
}

/// The record at `i` is what the device last said of its owner.
pub open spec fn newest_link(rs: Seq<RecordModel>, i: int, device: Seq<char>) -> bool {
    &&& 0 <= i < rs.len()
    &&& rs[i].author == device
    &&& rs[i].body is DeviceLink
    &&& forall|j: int|
        0 <= j < rs.len() && (#[trigger] rs[j]).author == device && rs[j].body is DeviceLink && rs[j].id != rs[i].id
            ==> newer(rs[i], rs[j])
}

/// The device last said that it belongs to `owner`.
pub open spec fn belongs(rs: Seq<RecordModel>, device: Seq<char>, owner: Seq<char>) -> bool {
    exists|i: int| #[trigger]
        newest_link(rs, i, device) && rs[i].body->DeviceLink_0.active && rs[i].body->DeviceLink_0.owner == owner
}

/// A device has the owner that it last named, unless it has since unlinked itself.
pub proof fn law_device_names_its_owner(rs: Seq<RecordModel>, device: Seq<char>)
    requires
        genuine(rs),
    ensures
        forall|owner: Seq<char>|
            people::owner_of(known(rs), device) == Some(owner) <==> #[trigger] belongs(rs, device, owner),
{
    let slot = |m: StateModel|
        if m.links.contains_key(device) {
            Some(m.links[device])
        } else {
            None
        };
    let offer = |r: RecordModel|
        if r.author == device && r.body is DeviceLink {
            Some(LinkEntry { link: r.body->DeviceLink_0, updated_ms: r.created_ms, id: r.id })
        } else {
            None
        };
    let wins = |x: LinkEntry, y: LinkEntry|
        x.updated_ms > y.updated_ms || (x.updated_ms == y.updated_ms && text::text_before(y.id, x.id));
    assert(contested(slot, offer, wins)) by {
        assert forall|x: LinkEntry, y: LinkEntry, z: LinkEntry|
            #![trigger wins(x, y), wins(y, z)]
            wins(x, y) && wins(y, z) implies wins(x, z) by {
            stamp::lemma_transitive(z.updated_ms, z.id, y.updated_ms, y.id, x.updated_ms, x.id);
        }
        assert forall|r: RecordModel, s: RecordModel|
            #![trigger offer(r), offer(s)]
            r.id != s.id && offer(r) is Some && offer(s) is Some implies wins(offer(r)->0, offer(s)->0) || wins(
            offer(s)->0,
            offer(r)->0,
        ) by {
            stamp::lemma_total(r.created_ms, r.id, s.created_ms, s.id);
        }
    }
    lemma_slot(slot, offer, wins, rs);
    let m = known(rs);
    if slot(m) is Some {
        let i = choose|i: int| #[trigger] wins_all(offer, wins, rs, i) && offer(rs[i]) == slot(m);
        assert(offer(rs[i]) is Some);
        assert forall|j: int|
            0 <= j < rs.len() && (#[trigger] rs[j]).author == device && rs[j].body is DeviceLink && rs[j].id
                != rs[i].id implies newer(rs[i], rs[j]) by {
            assert(offer(rs[j]) is Some);
        }
        assert(newest_link(rs, i, device));
        assert forall|k: int| #[trigger] newest_link(rs, k, device) implies offer(rs[k]) == slot(m) by {
            if rs[k].id != rs[i].id {
                assert(newer(rs[i], rs[k]) && newer(rs[k], rs[i]));
                stamp::lemma_total(rs[i].created_ms, rs[i].id, rs[k].created_ms, rs[k].id);
            }
        }
    } else {
        assert forall|j: int| 0 <= j < rs.len() && (#[trigger] rs[j]).author == device implies !(rs[j].body is DeviceLink) by {
            assert(offer(rs[j]) is None);
        }
    }
}

/// A device counts for a user exactly where the user's newest profile lists it and it last said that it
/// belongs to that user.
pub proof fn law_devices_are_bound_both_ways(rs: Seq<RecordModel>, node: Seq<char>, device: Seq<char>)
    requires
        genuine(rs),
    ensures
        people::bound_devices(known(rs), node).contains(device) <==> belongs(rs, device, node) && exists|i: int| #[trigger]
            newest_profile(rs, i, node) && rs[i].body->Profile_0.devices.contains(device),
{
    let m = known(rs);
    let declared = people::declared_devices(m, node);
    let keep = people::points_at(m, node);
    law_profile_is_the_newest(rs, node);
    law_device_names_its_owner(rs, device);
    order::lemma_filtered(declared, keep);
    let bound = people::bound_devices(m, node);
    assert(bound.contains(device) <==> bound.to_set().contains(device));
    assert(declared.contains(device) <==> declared.to_set().contains(device));
    assert(bound.to_set().contains(device) <==> declared.to_set().filter(keep).contains(device));
    assert(keep(device) <==> people::owner_of(m, device) == Some(node));
    if m.profiles.contains_key(node) {
        let i = choose|i: int| #[trigger] newest_profile(rs, i, node);
        assert(declared == rs[i].body->Profile_0.devices);
    }
}

} // verus!
