//! Repute: what a user's karma is made of, told from the records that were published.
use crate::double;
use crate::feed;
use crate::history;
use crate::history::{genuine, known, saying, Matter};
use crate::karma::SocialKarma;
use crate::model::BodyModel;
use crate::people;
use crate::people::BanBallot;
use crate::readmodel::StateModel;
use crate::record::RecordModel;
use crate::sums;
use vstd::prelude::*;

verus! {

/// The record is a thread root (`root`) or a comment (`!root`) by `user`.
pub open spec fn is_post_by(r: RecordModel, user: Seq<char>, root: bool) -> bool {
    r.author == user && (r.body matches BodyModel::Post(p) && (p.parent is None) == root)
}

/// `ids` lists every thread root, or every comment, that the user has published, each once.
pub open spec fn lists_posts_by(rs: Seq<RecordModel>, user: Seq<char>, root: bool, ids: Seq<Seq<char>>) -> bool {
    &&& ids.no_duplicates()
    &&& forall|id: Seq<char>| #[trigger]
        ids.contains(id) <==> exists|i: int|
            0 <= i < rs.len() && (#[trigger] rs[i]).id == id && is_post_by(rs[i], user, root)
}

/// The ups that a post shows.
pub open spec fn shown_ups(m: StateModel) -> spec_fn(Seq<char>) -> int {
    |id: Seq<char>| feed::post_view(m, id).ups as int
}

/// The downs that a post shows.
pub open spec fn shown_downs(m: StateModel) -> spec_fn(Seq<char>) -> int {
    |id: Seq<char>| feed::post_view(m, id).downs as int
}

/// The net score that a post shows.
pub open spec fn shown_score(m: StateModel) -> spec_fn(Seq<char>) -> int {
    |id: Seq<char>| feed::post_view(m, id).score
}

proof fn lemma_score_splits(m: StateModel, ids: Seq<Seq<char>>)
    ensures
        sums::added_up(ids, shown_score(m)) == sums::added_up(ids, shown_ups(m)) - sums::added_up(ids, shown_downs(m)),
    decreases ids.len(),
{
    if ids.len() > 0 {
        lemma_score_splits(m, ids.drop_last());
    }
}

proof fn lemma_totals(rs: Seq<RecordModel>, user: Seq<char>, root: bool, ids: Seq<Seq<char>>)
    requires
        genuine(rs),
        lists_posts_by(rs, user, root, ids),
    ensures
        ({
            let m = known(rs);
            let authored = people::authored(m, user, root);
            &&& authored.len() == ids.len()
            &&& people::total_ups(m, authored) == sums::added_up(ids, shown_ups(m))
            &&& people::total_downs(m, authored) == sums::added_up(ids, shown_downs(m))
        }),
{
    let m = known(rs);
    let authored = people::authored(m, user, root);
    assert forall|id: Seq<char>| authored.contains(id) <==> ids.contains(id) by {
        history::law_posts_are_shown_as_published(rs, id);
        if authored.contains(id) {
            let i = choose|i: int| 0 <= i < rs.len() && (#[trigger] rs[i]).id == id && rs[i].body is Post;
            assert(feed::post_view(m, id).author == rs[i].author);
            assert(is_post_by(rs[i], user, root));
        }
        if ids.contains(id) {
            let i = choose|i: int| 0 <= i < rs.len() && (#[trigger] rs[i]).id == id && is_post_by(rs[i], user, root);
            assert(feed::post_view(m, id).author == rs[i].author);
            assert(feed::post_view(m, id).parent == rs[i].body->Post_0.parent);
            assert(m.posts.contains_key(id));
        }
    }
    assert(authored =~= ids.to_set());
    ids.unique_seq_to_set();
    let ups = |id: Seq<char>| people::ups_on(m, id);
    let downs = |id: Seq<char>| people::downs_on(m, id);
    sums::lemma_added_up(ids, ups);
    sums::lemma_added_up(ids, downs);
    assert(forall|i: int| 0 <= i < ids.len() ==> ups(#[trigger] ids[i]) == shown_ups(m)(ids[i]));
    assert(forall|i: int| 0 <= i < ids.len() ==> downs(#[trigger] ids[i]) == shown_downs(m)(ids[i]));
    sums::lemma_added_up_same(ids, ups, ids, shown_ups(m));
    sums::lemma_added_up_same(ids, downs, ids, shown_downs(m));
}

/// A user's karma adds up what their posts show. With `roots` and `comments` for all the threads and
/// comments that they have published, each once: it counts them, sums the net scores of the ones and of the
/// others, and the ups and the downs of both; it counts those who last said that they follow the user; and
/// the effective score is the two net scores together.
pub proof fn law_karma_adds_up_what_posts_show(
    rs: Seq<RecordModel>,
    user: Seq<char>,
    k: SocialKarma,
    roots: Seq<Seq<char>>,
    comments: Seq<Seq<char>>,
)
    requires
        genuine(rs),
        people::social_is(known(rs), user, k),
        lists_posts_by(rs, user, true, roots),
        lists_posts_by(rs, user, false, comments),
    ensures
        ({
            let m = known(rs);
            &&& k.posts == roots.len()
            &&& k.comments == comments.len()
            &&& k.post_score == sums::added_up(roots, shown_score(m))
            &&& k.comment_score == sums::added_up(comments, shown_score(m))
            &&& k.upvotes == sums::added_up(roots, shown_ups(m)) + sums::added_up(comments, shown_ups(m))
            &&& k.downvotes == sums::added_up(roots, shown_downs(m)) + sums::added_up(comments, shown_downs(m))
            &&& k.upvotes - k.downvotes == k.post_score + k.comment_score
            &&& k.followers == saying(rs, Matter::User { followee: user }, 1).len()
            &&& k.effective_score == double::whole(k.post_score + k.comment_score)
            &&& k.net() == k.post_score + k.comment_score
            &&& people::net_karma(m, user) == k.post_score + k.comment_score
        }),
{
    let m = known(rs);
    lemma_totals(rs, user, true, roots);
    lemma_totals(rs, user, false, comments);
    lemma_score_splits(m, roots);
    lemma_score_splits(m, comments);
    history::law_follows_are_last_words(rs, user, user);
}

/// A ban ballot weighs what its own voter has earned: the scores of their posts and of their comments together,
/// as their karma tells them.
pub proof fn law_ballots_weigh_their_voters_karma(
    m: StateModel,
    board: Seq<char>,
    target: Seq<char>,
    ballots: Seq<BanBallot>,
    i: int,
    k: SocialKarma,
)
    requires
        people::weighs(m, board, target, ballots),
        0 <= i < ballots.len(),
        people::social_is(m, ballots[i].voter@, k),
    ensures
        ballots[i].karma == k.post_score + k.comment_score,
{
}

} // verus!
