//! Reading: what the entries of a listing are, and why they stand where they stand.
use crate::feed;
use crate::feed::{PostViewModel, SortBy};
use crate::governance;
use crate::laws;
use crate::listing;
use crate::order;
use crate::readmodel;
use crate::readmodel::StateModel;
use crate::text;
use vstd::prelude::*;

verus! {

// ----- order -----

/// What a post is worth to a reader: its net score for the top posts, the score that the algorithm gave it
/// for the others, and nothing where only time counts or no score was given.
pub open spec fn worth(v: PostViewModel, sort: SortBy, scores: Map<Seq<char>, i64>) -> int {
    match sort {
        SortBy::New => 0,
        SortBy::Top => v.score,
        SortBy::Hot | SortBy::Best | SortBy::Trending | SortBy::Rising | SortBy::Controversial => if scores.dom().contains(
            v.id,
        ) {
            scores[v.id] as int
        } else {
            0
        },
    }
}

/// `a` belongs before `b`: it is worth more, or as much and newer, or as much and as new and first by id.
pub open spec fn belongs_before(
    a: PostViewModel,
    b: PostViewModel,
    sort: SortBy,
    scores: Map<Seq<char>, i64>,
) -> bool {
    ||| worth(a, sort, scores) > worth(b, sort, scores)
    ||| worth(a, sort, scores) == worth(b, sort, scores) && a.created_ms > b.created_ms
    ||| worth(a, sort, scores) == worth(b, sort, scores) && a.created_ms == b.created_ms && text::text_before(a.id, b.id)
}

/// No entry stands behind one that it belongs before.
pub open spec fn in_order(vs: Seq<PostViewModel>, sort: SortBy, scores: Map<Seq<char>, i64>) -> bool {
    forall|i: int, j: int|
        0 <= i < j < vs.len() ==> !belongs_before(#[trigger] vs[j], #[trigger] vs[i], sort, scores)
}

/// The net scores fit 64 bits.
pub open spec fn scores_fit(vs: Seq<PostViewModel>) -> bool {
    forall|i: int| 0 <= i < vs.len() ==> i64::MIN <= (#[trigger] vs[i]).score <= i64::MAX
}

/// The net scores of all posts fit 64 bits.
pub open spec fn all_scores_fit(m: StateModel) -> bool {
    forall|id: Seq<char>| #[trigger]
        m.posts.contains_key(id) ==> i64::MIN <= feed::post_view(m, id).score <= i64::MAX
}

pub(crate) proof fn lemma_in_order(vs: Seq<PostViewModel>, sort: SortBy, scores: Map<Seq<char>, i64>)
    requires
        scores_fit(vs),
    ensures
        in_order(feed::ranked_views(vs, sort, scores), sort, scores),
        scores_fit(feed::ranked_views(vs, sort, scores)),
{
    let out = feed::ranked_views(vs, sort, scores);
    listing::lemma_ranked(vs, sort, scores);
    assert forall|i: int| 0 <= i < out.len() implies i64::MIN <= (#[trigger] out[i]).score <= i64::MAX by {
        assert(vs.contains(out[i]));
    }
    assert forall|i: int, j: int| 0 <= i < j < out.len() implies !belongs_before(
        #[trigger] out[j],
        #[trigger] out[i],
        sort,
        scores,
    ) by {
        assert(!order::outranks(feed::rank_of(out[j], sort, scores), feed::rank_of(out[i], sort, scores)));
    }
}

/// A feed is ranked by its algorithm. Of two posts the one with the higher score comes first: the net score
/// for the top posts, the score in the table for the hot, best, trending, rising and controversial ones,
/// where a post that is not in the table counts zero. Among the new ones, and among posts of one score, the
/// newer comes first.
pub proof fn law_better_posts_come_first(
    vs: Seq<PostViewModel>,
    sort: SortBy,
    scores: Map<Seq<char>, i64>,
    i: int,
    j: int,
)
    requires
        scores_fit(vs),
        0 <= i < vs.len(),
        0 <= j < vs.len(),
    ensures
        ({
            let out = feed::ranked_views(vs, sort, scores);
            let a = out[i];
            let b = out[j];
            let given = |v: PostViewModel|
                if scores.dom().contains(v.id) {
                    scores[v.id] as int
                } else {
                    0
                };
            &&& out.len() == vs.len()
            &&& sort == SortBy::New && a.created_ms > b.created_ms ==> i < j
            &&& sort == SortBy::Top && a.score > b.score ==> i < j
            &&& sort == SortBy::Top && a.score == b.score && a.created_ms > b.created_ms ==> i < j
            &&& sort != SortBy::New && sort != SortBy::Top && scores.dom().contains(a.id) && scores.dom().contains(b.id)
                && scores[a.id] > scores[b.id] ==> i < j
            &&& sort != SortBy::New && sort != SortBy::Top && given(a) > given(b) ==> i < j
            &&& sort != SortBy::New && sort != SortBy::Top && given(a) == given(b) && a.created_ms > b.created_ms ==> i
                < j
        }),
{
    let out = feed::ranked_views(vs, sort, scores);
    listing::lemma_ranked(vs, sort, scores);
    lemma_in_order(vs, sort, scores);
    if j < i {
        assert(!belongs_before(out[i], out[j], sort, scores));
    }
}

/// Ranking loses nothing and makes nothing up: every post that was given stands in the ranked list, each as
/// often as it was given.
pub proof fn law_ranking_keeps_the_posts(vs: Seq<PostViewModel>, sort: SortBy, scores: Map<Seq<char>, i64>)
    ensures
        exists|at: Seq<int>|
            #![trigger at.no_duplicates()]
            {
                &&& at.len() == vs.len()
                &&& at.no_duplicates()
                &&& forall|k: int| 0 <= k < at.len() ==> 0 <= #[trigger] at[k] < vs.len()
                &&& feed::ranked_views(vs, sort, scores).len() == vs.len()
                &&& forall|k: int| 0 <= k < at.len() ==> feed::ranked_views(vs, sort, scores)[k] == vs[#[trigger] at[k]]
            },
{
    let ranks = feed::ranks_of(vs, sort, scores);
    let at = order::ranking(ranks, vs.len() as int);
    order::law_ranking(ranks, vs.len() as int);
    assert(at.no_duplicates());
    assert(forall|k: int| 0 <= k < at.len() ==> feed::ranked_views(vs, sort, scores)[k] == vs[#[trigger] at[k]]);
}

// ----- which posts a listing shows -----

/// `out` shows the best of the wanted posts: each as it is, none twice, in order, as many as fit the limit,
/// and none that is left out belongs before one that is shown.
pub open spec fn shows_best(
    m: StateModel,
    wanted: spec_fn(Seq<char>) -> bool,
    sort: SortBy,
    scores: Map<Seq<char>, i64>,
    limit: int,
    out: Seq<PostViewModel>,
) -> bool {
    &&& out.len() <= limit
    &&& forall|i: int| 0 <= i < out.len() ==> wanted((#[trigger] out[i]).id) && out[i] == feed::post_view(m, out[i].id)
    &&& forall|i: int, j: int| 0 <= i < j < out.len() ==> (#[trigger] out[i]).id != (#[trigger] out[j]).id
    &&& in_order(out, sort, scores)
    &&& forall|id: Seq<char>| #[trigger]
        wanted(id) ==> listing::ids_of(out).contains(id) || (out.len() == limit && forall|i: int|
            0 <= i < out.len() ==> !belongs_before(feed::post_view(m, id), #[trigger] out[i], sort, scores))
}

/// The first entries of a whole listing are its best.
proof fn lemma_best(
    m: StateModel,
    wanted: spec_fn(Seq<char>) -> bool,
    all: Seq<PostViewModel>,
    sort: SortBy,
    scores: Map<Seq<char>, i64>,
    limit: nat,
)
    requires
        forall|i: int| 0 <= i < all.len() ==> (#[trigger] all[i]) == feed::post_view(m, all[i].id),
        listing::ids_of(all).no_duplicates(),
        forall|id: Seq<char>| #[trigger] wanted(id) <==> listing::ids_of(all).contains(id),
        in_order(all, sort, scores),
    ensures
        shows_best(m, wanted, sort, scores, limit as int, feed::first(all, limit as int)),
{
    let out = feed::first(all, limit as int);
    let ids = listing::ids_of(all);
    assert(forall|i: int| 0 <= i < out.len() ==> #[trigger] out[i] == all[i]);
    assert forall|i: int| 0 <= i < out.len() implies wanted((#[trigger] out[i]).id) && out[i] == feed::post_view(
        m,
        out[i].id,
    ) by {
        assert(ids[i] == out[i].id);
        assert(ids.contains(out[i].id));
    }
    assert forall|i: int, j: int| 0 <= i < j < out.len() implies (#[trigger] out[i]).id != (#[trigger] out[j]).id by {
        assert(ids[i] == out[i].id && ids[j] == out[j].id);
    }
    assert forall|id: Seq<char>| #[trigger] wanted(id) implies listing::ids_of(out).contains(id) || (out.len() == limit
        && forall|i: int|
        0 <= i < out.len() ==> !belongs_before(feed::post_view(m, id), #[trigger] out[i], sort, scores)) by {
        let k = choose|k: int| 0 <= k < ids.len() && ids[k] == id;
        assert(all[k].id == id);
        if k < out.len() {
            assert(listing::ids_of(out)[k] == id);
        } else {
            assert forall|i: int| 0 <= i < out.len() implies !belongs_before(
                feed::post_view(m, id),
                #[trigger] out[i],
                sort,
                scores,
            ) by {
                assert(!belongs_before(all[k], all[i], sort, scores));
            }
        }
    }
}

/// A thread of the board that is shown: a post without a parent, in that board, by someone whom the
/// community has not banned from it.
pub open spec fn thread_of(m: StateModel, board: Seq<char>) -> spec_fn(Seq<char>) -> bool {
    |id: Seq<char>|
        m.posts.dom().contains(id) && m.posts[id].post.parent is None && m.posts[id].post.board == board
            && !governance::banned_raw(m, board, m.posts[id].author)
}

/// A thread of any board that is shown.
pub open spec fn thread_anywhere(m: StateModel) -> spec_fn(Seq<char>) -> bool {
    |id: Seq<char>|
        m.posts.dom().contains(id) && m.posts[id].post.parent is None && !governance::banned_raw(
            m,
            m.posts[id].post.board,
            m.posts[id].author,
        )
}

/// The mark that `follower` last set on `followee` is that of following them.
pub open spec fn marked_as_followed(m: StateModel, follower: Seq<char>, followee: Seq<char>) -> bool {
    m.follows.dom().contains(followee) && m.follows[followee].dom().contains(follower)
        && m.follows[followee][follower].value == 1
}

/// A thread of any board that is shown, by someone whom `viewer` follows.
pub open spec fn thread_followed(m: StateModel, viewer: Seq<char>) -> spec_fn(Seq<char>) -> bool {
    |id: Seq<char>|
        m.posts.dom().contains(id) && m.posts[id].post.parent is None && marked_as_followed(
            m,
            viewer,
            m.posts[id].author,
        ) && !governance::banned_raw(m, m.posts[id].post.board, m.posts[id].author)
}

pub(crate) proof fn lemma_board_best(
    m: StateModel,
    board: Seq<char>,
    sort: SortBy,
    scores: Map<Seq<char>, i64>,
    limit: nat,
)
    requires
        laws::sound(m),
        scores_fit(
            feed::ranked_views(feed::visible(m, readmodel::list_at(m.board_threads, board)), sort, scores),
        ),
    ensures
        shows_best(
            m,
            thread_of(m, board),
            sort,
            scores,
            limit as int,
            feed::first(
                feed::ranked_views(feed::visible(m, readmodel::list_at(m.board_threads, board)), sort, scores),
                limit as int,
            ),
        ),
{
    let ids = readmodel::list_at(m.board_threads, board);
    let vs = feed::visible(m, ids);
    let all = feed::ranked_views(vs, sort, scores);
    let wanted = thread_of(m, board);
    listing::lemma_shown_and_ranked(m, ids, sort, scores);
    lemma_fit_before(vs, sort, scores);
    lemma_in_order(vs, sort, scores);
    assert forall|id: Seq<char>| #[trigger] wanted(id) <==> listing::ids_of(all).contains(id) by {
        if ids.contains(id) {
            let j = choose|j: int| 0 <= j < ids.len() && ids[j] == id;
            assert(m.posts.contains_key(m.board_threads[board][j]));
        }
        if wanted(id) {
            assert(m.posts.contains_key(id));
        }
    }
    lemma_best(m, wanted, all, sort, scores, limit);
}

/// Scores that fit once ranked fit before.
proof fn lemma_fit_before(vs: Seq<PostViewModel>, sort: SortBy, scores: Map<Seq<char>, i64>)
    requires
        scores_fit(feed::ranked_views(vs, sort, scores)),
    ensures
        scores_fit(vs),
{
    let ranks = feed::ranks_of(vs, sort, scores);
    let at = order::ranking(ranks, vs.len() as int);
    let out = feed::ranked_views(vs, sort, scores);
    order::law_ranking(ranks, vs.len() as int);
    assert forall|i: int| 0 <= i < vs.len() implies i64::MIN <= (#[trigger] vs[i]).score <= i64::MAX by {
        assert(at.contains(i));
        let k = choose|k: int| 0 <= k < at.len() && at[k] == i;
        assert(out[k] == vs[i]);
    }
}

/// A board shows the best of its threads, and only those: posts without a parent, in that board, by people
/// whom the community has not banned from it.
pub proof fn law_board_shows_its_best_threads(
    m: StateModel,
    board: Seq<char>,
    sort: SortBy,
    scores: Map<Seq<char>, i64>,
    limit: nat,
)
    requires
        laws::sound(m),
        all_scores_fit(m),
    ensures
        shows_best(
            m,
            thread_of(m, board),
            sort,
            scores,
            limit as int,
            feed::first(
                feed::ranked_views(feed::visible(m, readmodel::list_at(m.board_threads, board)), sort, scores),
                limit as int,
            ),
        ),
{
    let ids = readmodel::list_at(m.board_threads, board);
    listing::lemma_shown_and_ranked(m, ids, sort, scores);
    let all = feed::ranked_views(feed::visible(m, ids), sort, scores);
    assert forall|i: int| 0 <= i < all.len() implies i64::MIN <= (#[trigger] all[i]).score <= i64::MAX by {
        assert(m.posts.contains_key(all[i].id));
    }
    lemma_board_best(m, board, sort, scores, limit);
}

/// The feed of a set of posts shows the best of them.
pub(crate) proof fn lemma_feed_best(
    m: StateModel,
    ids: Set<Seq<char>>,
    wanted: spec_fn(Seq<char>) -> bool,
    sort: SortBy,
    scores: Map<Seq<char>, i64>,
    limit: nat,
    listed: Seq<Seq<char>>,
)
    requires
        feed::enumerates(listed, ids),
        forall|id: Seq<char>| #[trigger] wanted(id) <==> ids.contains(id),
        scores_fit(listed.map_values(|id: Seq<char>| feed::post_view(m, id))),
    ensures
        shows_best(
            m,
            wanted,
            sort,
            scores,
            limit as int,
            feed::first(
                feed::ranked_views(listed.map_values(|id: Seq<char>| feed::post_view(m, id)), sort, scores),
                limit as int,
            ),
        ),
{
    let vs = listed.map_values(|id: Seq<char>| feed::post_view(m, id));
    let all = feed::ranked_views(vs, sort, scores);
    listing::lemma_ranked(vs, sort, scores);
    lemma_in_order(vs, sort, scores);
    assert(listing::ids_of(vs) =~= listed);
    assert forall|i: int| 0 <= i < all.len() implies (#[trigger] all[i]) == feed::post_view(m, all[i].id) by {
        assert(vs.contains(all[i]));
        let j = choose|j: int| 0 <= j < vs.len() && vs[j] == all[i];
        assert(all[i] == feed::post_view(m, listed[j]));
    }
    assert forall|id: Seq<char>| #[trigger] wanted(id) <==> listing::ids_of(all).contains(id) by {
        assert(listing::ids_of(all).to_set().contains(id) <==> listed.to_set().contains(id));
        assert(listed.to_set().contains(id) <==> ids.contains(id));
    }
    lemma_best(m, wanted, all, sort, scores, limit);
}

pub(crate) proof fn lemma_wanted_anywhere(m: StateModel)
    ensures
        forall|id: Seq<char>| #[trigger] thread_anywhere(m)(id) <==> feed::all_roots(m).contains(id),
{
}

pub(crate) proof fn lemma_wanted_followed(m: StateModel, viewer: Seq<char>)
    ensures
        forall|id: Seq<char>| #[trigger] thread_followed(m, viewer)(id) <==> feed::home_roots(m, viewer).contains(id),
{
}

/// The cross-board feed shows the best of all threads, and only those: posts without a parent by people whom
/// the community has not banned from their board.
pub proof fn law_feed_shows_the_best_threads(
    m: StateModel,
    sort: SortBy,
    scores: Map<Seq<char>, i64>,
    limit: nat,
    out: Seq<PostViewModel>,
)
    requires
        all_scores_fit(m),
        feed::feed_of(m, feed::all_roots(m), sort, scores, limit as int, out),
    ensures
        shows_best(m, thread_anywhere(m), sort, scores, limit as int, out),
{
    let ids = feed::all_roots(m);
    let listed = choose|listed: Seq<Seq<char>>| #[trigger]
        feed::enumerates(listed, ids) && out == feed::first(
            feed::ranked_views(listed.map_values(|id: Seq<char>| feed::post_view(m, id)), sort, scores),
            limit as int,
        );
    lemma_listed_fit(m, ids, listed);
    lemma_wanted_anywhere(m);
    lemma_feed_best(m, ids, thread_anywhere(m), sort, scores, limit, listed);
}

/// A home feed shows the best of the threads of those whom the viewer follows, and only those: posts without
/// a parent, by people whose follow mark by the viewer is set and whom the community has not banned from
/// their board. Being followed by someone does not bring their threads in.
pub proof fn law_home_feed_shows_whom_one_follows(
    m: StateModel,
    viewer: Seq<char>,
    sort: SortBy,
    scores: Map<Seq<char>, i64>,
    limit: nat,
    out: Seq<PostViewModel>,
)
    requires
        all_scores_fit(m),
        feed::feed_of(m, feed::home_roots(m, viewer), sort, scores, limit as int, out),
    ensures
        shows_best(m, thread_followed(m, viewer), sort, scores, limit as int, out),
{
    let ids = feed::home_roots(m, viewer);
    let listed = choose|listed: Seq<Seq<char>>| #[trigger]
        feed::enumerates(listed, ids) && out == feed::first(
            feed::ranked_views(listed.map_values(|id: Seq<char>| feed::post_view(m, id)), sort, scores),
            limit as int,
        );
    lemma_listed_fit(m, ids, listed);
    lemma_wanted_followed(m, viewer);
    lemma_feed_best(m, ids, thread_followed(m, viewer), sort, scores, limit, listed);
}

proof fn lemma_listed_fit(m: StateModel, ids: Set<Seq<char>>, listed: Seq<Seq<char>>)
    requires
        all_scores_fit(m),
        feed::enumerates(listed, ids),
        ids.subset_of(m.posts.dom()),
    ensures
        scores_fit(listed.map_values(|id: Seq<char>| feed::post_view(m, id))),
{
    let vs = listed.map_values(|id: Seq<char>| feed::post_view(m, id));
    assert forall|i: int| 0 <= i < vs.len() implies i64::MIN <= (#[trigger] vs[i]).score <= i64::MAX by {
        assert(listed.to_set().contains(listed[i]));
        assert(m.posts.contains_key(listed[i]));
    }
}

// ----- comment trees -----

/// Entries that answer the same post stand in order.
pub open spec fn siblings_in_order(vs: Seq<PostViewModel>, sort: SortBy, scores: Map<Seq<char>, i64>) -> bool {
    forall|i: int, j: int|
        0 <= i < j < vs.len() && (#[trigger] vs[i]).parent == (#[trigger] vs[j]).parent ==> !belongs_before(
            vs[j],
            vs[i],
            sort,
            scores,
        )
}

/// The entry at `t` answers one of the entries from `a` up to it.
pub open spec fn answers_from(vs: Seq<PostViewModel>, a: int, t: int) -> bool {
    exists|s: int| a <= s < t && vs[t].parent == Some((#[trigger] vs[s]).id)
}

/// Depth first: between a comment and any answer to it stand only comments below it.
pub open spec fn depth_first(vs: Seq<PostViewModel>) -> bool {
    forall|a: int, t: int, k: int|
        #![trigger answers_from(vs, a, t), vs[k]]
        0 <= a < t < k < vs.len() && vs[k].parent == Some(vs[a].id) ==> answers_from(vs, a, t)
}

/// Every entry that answers `parent` itself is one of `vs`.
spec fn tops_are(out: Seq<PostViewModel>, parent: Seq<char>, vs: Seq<PostViewModel>) -> bool {
    forall|i: int| 0 <= i < out.len() && (#[trigger] out[i]).parent == Some(parent) ==> vs.contains(out[i])
}

proof fn lemma_threaded_tree(
    m: StateModel,
    parent: Seq<char>,
    open: Set<Seq<char>>,
    sort: SortBy,
    scores: Map<Seq<char>, i64>,
)
    requires
        laws::sound(m),
        all_scores_fit(m),
        open.finite(),
        !open.contains(parent),
    ensures
        siblings_in_order(feed::comment_tree(m, parent, open, sort, scores), sort, scores),
        depth_first(feed::comment_tree(m, parent, open, sort, scores)),
    decreases open.len(), 1int, 0int,
{
    let vs = feed::ranked_replies(m, parent, sort, scores);
    let shown = feed::visible(m, readmodel::list_at(m.children, parent));
    listing::lemma_group(m, parent, sort, scores);
    assert forall|i: int| 0 <= i < vs.len() implies i64::MIN <= (#[trigger] vs[i]).score <= i64::MAX by {
        assert(m.posts.contains_key(vs[i].id));
    }
    lemma_fit_before(shown, sort, scores);
    lemma_in_order(shown, sort, scores);
    lemma_threaded_lines(m, vs, parent, open, sort, scores);
}

proof fn lemma_threaded_lines(
    m: StateModel,
    vs: Seq<PostViewModel>,
    parent: Seq<char>,
    open: Set<Seq<char>>,
    sort: SortBy,
    scores: Map<Seq<char>, i64>,
)
    requires
        laws::sound(m),
        all_scores_fit(m),
        open.finite(),
        !open.contains(parent),
        listing::sibling_group(m, vs, parent),
        in_order(vs, sort, scores),
    ensures
        siblings_in_order(feed::comment_lines(m, vs, open, sort, scores), sort, scores),
        depth_first(feed::comment_lines(m, vs, open, sort, scores)),
        tops_are(feed::comment_lines(m, vs, open, sort, scores), parent, vs),
    decreases open.len(), 0int, vs.len(),
{
    if vs.len() > 0 {
        let fewer = vs.drop_last();
        let v = vs.last();
        assert(forall|i: int| 0 <= i < fewer.len() ==> #[trigger] fewer[i] == vs[i]);
        assert(v == vs[vs.len() - 1]);
        assert(listing::sibling_group(m, fewer, parent)) by {
            assert forall|i: int, j: int| 0 <= i < fewer.len() && 0 <= j < fewer.len() && i != j implies listing::ids_of(
                fewer,
            )[i] != listing::ids_of(fewer)[j] by {
                assert(listing::ids_of(vs)[i] == listing::ids_of(fewer)[i]);
                assert(listing::ids_of(vs)[j] == listing::ids_of(fewer)[j]);
            }
        }
        lemma_threaded_lines(m, fewer, parent, open, sort, scores);
        let before = feed::comment_lines(m, fewer, open, sort, scores);
        let out = feed::comment_lines(m, vs, open, sort, scores);
        listing::lemma_below(m, fewer, parent, open, sort, scores);
        listing::lemma_below(m, vs, parent, open, sort, scores);
        if open.contains(v.id) {
            let rest = open.remove(v.id);
            let below = feed::ranked_replies(m, v.id, sort, scores);
            let tree = feed::comment_tree(m, v.id, rest, sort, scores);
            lemma_threaded_tree(m, v.id, rest, sort, scores);
            listing::lemma_group(m, v.id, sort, scores);
            listing::lemma_below(m, below, v.id, rest, sort, scores);
            assert(out == before.push(v) + tree);
            assert(joinable(vs, before, tree, parent, open));
            lemma_join_tops(vs, before, tree, parent, open);
            lemma_join_order(vs, before, tree, parent, open, sort, scores);
            assert forall|a: int, t: int, k: int|
                #![trigger answers_from(out, a, t), out[k]]
                0 <= a < t < k < out.len() && out[k].parent == Some(out[a].id) implies answers_from(out, a, t) by {
                lemma_join_depth(vs, before, tree, parent, open, a, t, k);
            }
        } else {
            assert forall|i: int| 0 <= i < out.len() && (#[trigger] out[i]).parent == Some(parent) implies vs.contains(
                out[i],
            ) by {
                assert(fewer.contains(out[i]));
                let k = choose|k: int| 0 <= k < fewer.len() && fewer[k] == out[i];
                assert(vs[k] == out[i]);
            }
        }
    }
}

/// Where the answers below the last comment point: to it, or to answers before them.
proof fn lemma_points_below(before: Seq<PostViewModel>, v: PostViewModel, tree: Seq<PostViewModel>, j: int)
    requires
        listing::replies_follow(tree, v.id),
        before.len() < j < (before.push(v) + tree).len(),
    ensures
        ({
            let out = before.push(v) + tree;
            exists|s: int| before.len() <= s < j && out[j].parent == Some((#[trigger] out[s]).id)
        }),
{
    let out = before.push(v) + tree;
    let b = before.len() as int;
    let k = j - b - 1;
    assert(out[j] == tree[k]);
    if tree[k].parent == Some(v.id) {
        assert(out[b].id == v.id);
    } else {
        let s = choose|s: int| 0 <= s < k && tree[k].parent == Some((#[trigger] tree[s]).id);
        assert(out[s + b + 1] == tree[s]);
    }
}

/// What is known of the comments that are joined.
spec fn joinable(
    vs: Seq<PostViewModel>,
    before: Seq<PostViewModel>,
    tree: Seq<PostViewModel>,
    parent: Seq<char>,
    open: Set<Seq<char>>,
) -> bool {
    &&& vs.len() > 0
    &&& !open.contains(parent)
    &&& open.contains(vs.last().id)
    &&& vs.last().parent == Some(parent)
    &&& tops_are(before, parent, vs.drop_last())
    &&& listing::replies_follow(before, parent)
    &&& listing::replies_follow(tree, vs.last().id)
    &&& forall|i: int| 0 <= i < before.len() ==> open.contains((#[trigger] before[i]).id)
    &&& forall|i: int| 0 <= i < tree.len() ==> open.contains((#[trigger] tree[i]).id)
    &&& listing::ids_of(before.push(vs.last()) + tree).no_duplicates()
}

/// No answer below the last comment answers `parent` itself.
proof fn lemma_below_is_below(
    vs: Seq<PostViewModel>,
    before: Seq<PostViewModel>,
    tree: Seq<PostViewModel>,
    parent: Seq<char>,
    open: Set<Seq<char>>,
    j: int,
)
    requires
        joinable(vs, before, tree, parent, open),
        before.len() < j < (before.push(vs.last()) + tree).len(),
    ensures
        (before.push(vs.last()) + tree)[j].parent != Some(parent),
{
    let v = vs.last();
    let out = before.push(v) + tree;
    let b = before.len() as int;
    lemma_points_below(before, v, tree, j);
    let s = choose|s: int| b <= s < j && out[j].parent == Some((#[trigger] out[s]).id);
    if s > b {
        assert(out[s] == tree[s - b - 1]);
    }
}

proof fn lemma_join_tops(
    vs: Seq<PostViewModel>,
    before: Seq<PostViewModel>,
    tree: Seq<PostViewModel>,
    parent: Seq<char>,
    open: Set<Seq<char>>,
)
    requires
        joinable(vs, before, tree, parent, open),
    ensures
        tops_are(before.push(vs.last()) + tree, parent, vs),
{
    let fewer = vs.drop_last();
    let out = before.push(vs.last()) + tree;
    let b = before.len() as int;
    assert forall|i: int| 0 <= i < out.len() && (#[trigger] out[i]).parent == Some(parent) implies vs.contains(out[i]) by {
        if i < b {
            assert(out[i] == before[i]);
            assert(fewer.contains(before[i]));
            let k = choose|k: int| 0 <= k < fewer.len() && fewer[k] == before[i];
            assert(vs[k] == out[i]);
        } else if i == b {
            assert(vs[vs.len() - 1] == out[i]);
        } else {
            lemma_below_is_below(vs, before, tree, parent, open, i);
        }
    }
}

/// Two entries that answer one post stand both before the last comment, both below it, or on top.
proof fn lemma_join_siblings(
    vs: Seq<PostViewModel>,
    before: Seq<PostViewModel>,
    tree: Seq<PostViewModel>,
    parent: Seq<char>,
    open: Set<Seq<char>>,
    i: int,
    j: int,
)
    requires
        joinable(vs, before, tree, parent, open),
        0 <= i <= before.len() < j < (before.push(vs.last()) + tree).len(),
    ensures
        ({
            let out = before.push(vs.last()) + tree;
            out[i].parent != out[j].parent
        }),
{
    let v = vs.last();
    let out = before.push(v) + tree;
    let ids = listing::ids_of(out);
    let b = before.len() as int;
    lemma_below_is_below(vs, before, tree, parent, open, j);
    lemma_points_below(before, v, tree, j);
    let s = choose|s: int| b <= s < j && out[j].parent == Some((#[trigger] out[s]).id);
    assert(ids[s] == out[s].id);
    if i < b {
        assert(out[i] == before[i]);
        if before[i].parent != Some(parent) {
            let q = choose|q: int| 0 <= q < i && before[i].parent == Some((#[trigger] before[q]).id);
            assert(out[q] == before[q]);
            assert(ids[q] == out[q].id);
        }
    } else {
        assert(out[i] == v);
    }
}

proof fn lemma_join_order(
    vs: Seq<PostViewModel>,
    before: Seq<PostViewModel>,
    tree: Seq<PostViewModel>,
    parent: Seq<char>,
    open: Set<Seq<char>>,
    sort: SortBy,
    scores: Map<Seq<char>, i64>,
)
    requires
        joinable(vs, before, tree, parent, open),
        in_order(vs, sort, scores),
        siblings_in_order(before, sort, scores),
        siblings_in_order(tree, sort, scores),
    ensures
        siblings_in_order(before.push(vs.last()) + tree, sort, scores),
{
    let v = vs.last();
    let fewer = vs.drop_last();
    let out = before.push(v) + tree;
    let b = before.len() as int;
    assert forall|i: int, j: int|
        0 <= i < j < out.len() && (#[trigger] out[i]).parent == (#[trigger] out[j]).parent implies !belongs_before(
        out[j],
        out[i],
        sort,
        scores,
    ) by {
        if j < b {
            assert(out[i] == before[i] && out[j] == before[j]);
        } else if i > b {
            assert(out[i] == tree[i - b - 1] && out[j] == tree[j - b - 1]);
        } else if j == b {
            assert(out[i] == before[i] && out[j] == v);
            assert(fewer.contains(before[i]));
            let k = choose|k: int| 0 <= k < fewer.len() && fewer[k] == before[i];
            assert(vs[k] == out[i]);
            assert(vs[vs.len() - 1] == v);
            assert(!belongs_before(vs[vs.len() - 1], vs[k], sort, scores));
        } else {
            lemma_join_siblings(vs, before, tree, parent, open, i, j);
        }
    }
}

proof fn lemma_join_depth(
    vs: Seq<PostViewModel>,
    before: Seq<PostViewModel>,
    tree: Seq<PostViewModel>,
    parent: Seq<char>,
    open: Set<Seq<char>>,
    a: int,
    t: int,
    k: int,
)
    requires
        joinable(vs, before, tree, parent, open),
        depth_first(before),
        depth_first(tree),
        0 <= a < t < k < (before.push(vs.last()) + tree).len(),
        (before.push(vs.last()) + tree)[k].parent == Some((before.push(vs.last()) + tree)[a].id),
    ensures
        answers_from(before.push(vs.last()) + tree, a, t),
{
    let v = vs.last();
    let out = before.push(v) + tree;
    let ids = listing::ids_of(out);
    let b = before.len() as int;
    assert(ids[a] == out[a].id);
    if k < b {
        assert(out[a] == before[a] && out[t] == before[t] && out[k] == before[k]);
        assert(answers_from(before, a, t));
        let s = choose|s: int| a <= s < t && before[t].parent == Some((#[trigger] before[s]).id);
        assert(out[s] == before[s]);
    } else if k == b {
        assert(out[a] == before[a]);
        assert(open.contains(before[a].id));
    } else {
        lemma_points_below(before, v, tree, k);
        let s = choose|s: int| b <= s < k && out[k].parent == Some((#[trigger] out[s]).id);
        assert(ids[s] == out[s].id);
        assert(s == a);
        if a == b {
            lemma_points_below(before, v, tree, t);
            let q = choose|q: int| b <= q < t && out[t].parent == Some((#[trigger] out[q]).id);
            assert(a <= q < t);
        } else {
            let (x, y, z) = (a - b - 1, t - b - 1, k - b - 1);
            assert(out[a] == tree[x] && out[t] == tree[y] && out[k] == tree[z]);
            assert(answers_from(tree, x, y));
            let q = choose|q: int| x <= q < y && tree[y].parent == Some((#[trigger] tree[q]).id);
            assert(out[q + b + 1] == tree[q]);
        }
    }
}

/// Comments are shown as a tree: those that answer the same post in order, and each directly followed by
/// all that is below it.
pub proof fn law_comments_are_a_tree_in_order(
    m: StateModel,
    root: Seq<char>,
    sort: SortBy,
    scores: Map<Seq<char>, i64>,
)
    requires
        laws::sound(m),
        all_scores_fit(m),
    ensures
        ({
            let out = feed::comment_tree(m, root, m.posts.dom().remove(root), sort, scores);
            &&& siblings_in_order(out, sort, scores)
            &&& depth_first(out)
        }),
{
    let open = m.posts.dom().remove(root);
    vstd::set_lib::lemma_set_subset_finite(m.seen, open);
    lemma_threaded_tree(m, root, open, sort, scores);
}

} // verus!
