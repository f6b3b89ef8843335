//! Laws of what readers see: nodes that have converged show the same.
use crate::convergence;
use crate::feed;
use crate::feed::{PostViewModel, SortBy};
use crate::documents;
use crate::governance;
use crate::governance::{BanStanding, BoardView, ProposalView};
use crate::laws;
use crate::listing;
use crate::order;
use crate::people;
use crate::readmodel;
use crate::readmodel::StateModel;
use crate::streams;
use crate::streams::StreamView;
use vstd::prelude::*;

verus! {

/// Nodes that have converged show every post alike, with the same tallies and the same number of
/// replies, and hide the same posts.
pub proof fn law_converged_nodes_show_the_same_posts(a: StateModel, b: StateModel, id: Seq<char>)
    requires
        convergence::converged(a, b),
    ensures
        feed::post_view(a, id) == feed::post_view(b, id),
        feed::shows(a, id) == feed::shows(b, id),
{
    let p = readmodel::list_at(a.children, id);
    let q = readmodel::list_at(b.children, id);
    assert(p.len() == q.len()) by {
        if a.children.contains_key(id) {
            p.to_multiset_ensures();
            q.to_multiset_ensures();
        }
    }
}

/// Nodes that have converged list the same thread roots in every home feed and in the cross-board feed,
/// agree on every ban, and roll up the same devices.
pub proof fn law_converged_nodes_agree(a: StateModel, b: StateModel, node: Seq<char>, board: Seq<char>)
    requires
        convergence::converged(a, b),
    ensures
        feed::home_roots(a, node) == feed::home_roots(b, node),
        feed::all_roots(a) == feed::all_roots(b),
        governance::banned_raw(a, board, node) == governance::banned_raw(b, board, node),
        governance::board_view(a, board) == governance::board_view(b, board),
        people::bound_devices(a, node) == people::bound_devices(b, node),
{
    assert(feed::home_roots(a, node) =~= feed::home_roots(b, node));
    assert(feed::all_roots(a) =~= feed::all_roots(b));
    assert(people::points_at(a, node) =~= people::points_at(b, node));
}

/// Nodes that have converged answer every lookup alike: how many records they hold, and of any user,
/// record, board or pair of users the profile, the post, the media descriptor, the document, the follow,
/// the stream, the board, the ban standing and the proposal.
pub proof fn law_converged_nodes_answer_alike(a: StateModel, b: StateModel, x: Seq<char>, y: Seq<char>)
    requires
        convergence::converged(a, b),
    ensures
        a.seen.len() == b.seen.len(),
        a.seen.contains(x) == b.seen.contains(x),
        a.profiles.contains_key(x) == b.profiles.contains_key(x),
        a.profiles[x] == b.profiles[x],
        a.posts.contains_key(x) == b.posts.contains_key(x),
        feed::post_view(a, x) == feed::post_view(b, x),
        a.media.contains_key(x) == b.media.contains_key(x),
        a.media[x] == b.media[x],
        a.documents.contains_key(x) == b.documents.contains_key(x),
        documents::document_view(a, x) == documents::document_view(b, x),
        feed::follows(a, x, y) == feed::follows(b, x, y),
        a.streams.contains_key(x) == b.streams.contains_key(x),
        forall|v: StreamView| streams::shows_stream(a, x, v) == #[trigger] streams::shows_stream(b, x, v),
        governance::board_view(a, x) == governance::board_view(b, x),
        forall|s: BanStanding|
            governance::standing_is(a, x, y, s) == #[trigger] governance::standing_is(b, x, y, s),
        a.proposals.contains_key(x) == b.proposals.contains_key(x),
        governance::proposal_view(a, x) == governance::proposal_view(b, x),
{
    law_converged_nodes_show_the_same_posts(a, b, x);
}

/// Nodes that have converged list the boards, the proposals and the live streams alike, in the same order.
pub proof fn law_converged_nodes_list_alike(
    a: StateModel,
    b: StateModel,
    boards: (Seq<BoardView>, Seq<BoardView>),
    scope: Option<Seq<char>>,
    proposals: (Seq<ProposalView>, Seq<ProposalView>),
    live: (Seq<StreamView>, Seq<StreamView>),
)
    requires
        convergence::converged(a, b),
        governance::lists_boards(a, boards.0),
        governance::lists_boards(b, boards.1),
        governance::lists_proposals(a, scope, proposals.0),
        governance::lists_proposals(b, scope, proposals.1),
        streams::lists_live(a, live.0),
        streams::lists_live(b, live.1),
    ensures
        boards.0.map_values(|v: BoardView| v@) == boards.1.map_values(|v: BoardView| v@),
        proposals.0.map_values(|v: ProposalView| v@) == proposals.1.map_values(|v: ProposalView| v@),
        live.0.map_values(|v: StreamView| v.id@) == live.1.map_values(|v: StreamView| v.id@),
{
    let u = boards.0.map_values(|v: BoardView| v.board@);
    let w = boards.1.map_values(|v: BoardView| v.board@);
    let at = |id: Seq<char>| governance::board_view(a, id).created_ms;
    assert(boards.0.map_values(|v: BoardView| (v.created_ms, v.board@)) =~= order::stamped(u, at));
    assert(boards.1.map_values(|v: BoardView| (v.created_ms, v.board@)) =~= order::stamped(w, at));
    order::law_newest_first_is_one_order(u, w, at);
    assert forall|i: int| 0 <= i < u.len() implies boards.0[i]@ == boards.1[i]@ by {
        assert(u[i] == boards.0[i].board@ && w[i] == boards.1[i].board@);
    }
    assert(boards.0.map_values(|v: BoardView| v@) =~= boards.1.map_values(|v: BoardView| v@));
    let u = proposals.0.map_values(|v: ProposalView| v.id@);
    let w = proposals.1.map_values(|v: ProposalView| v.id@);
    let at = |id: Seq<char>| governance::proposal_view(a, id).created_ms;
    assert(governance::proposals_in(a, scope) =~= governance::proposals_in(b, scope));
    assert(proposals.0.map_values(|v: ProposalView| (v.created_ms, v.id@)) =~= order::stamped(u, at));
    assert(proposals.1.map_values(|v: ProposalView| (v.created_ms, v.id@)) =~= order::stamped(w, at));
    order::law_newest_first_is_one_order(u, w, at);
    assert forall|i: int| 0 <= i < u.len() implies proposals.0[i]@ == proposals.1[i]@ by {
        assert(u[i] == proposals.0[i].id@ && w[i] == proposals.1[i].id@);
    }
    assert(proposals.0.map_values(|v: ProposalView| v@) =~= proposals.1.map_values(|v: ProposalView| v@));
    let u = live.0.map_values(|v: StreamView| v.id@);
    let w = live.1.map_values(|v: StreamView| v.id@);
    let at = |id: Seq<char>| a.streams[id].created_ms;
    assert(streams::live_ids(a) =~= streams::live_ids(b));
    assert(live.0.map_values(|v: StreamView| (v.created_ms, v.id@)) =~= order::stamped(u, at));
    assert(live.1.map_values(|v: StreamView| (v.created_ms, v.id@)) =~= order::stamped(w, at));
    order::law_newest_first_is_one_order(u, w, at);
}

/// Only one order puts the best first where all ranks differ.
proof fn lemma_one_order(u: Seq<PostViewModel>, w: Seq<PostViewModel>, sort: SortBy, scores: Map<Seq<char>, i64>)
    requires
        u.no_duplicates(),
        w.no_duplicates(),
        forall|i: int| 0 <= i < u.len() ==> w.contains(#[trigger] u[i]),
        forall|i: int| 0 <= i < w.len() ==> u.contains(#[trigger] w[i]),
        listing::best_first(u, sort, scores),
        listing::best_first(w, sort, scores),
        forall|i: int, j: int|
            0 <= i < u.len() && 0 <= j < u.len() && i != j ==> feed::rank_of(#[trigger] u[i], sort, scores)
                != feed::rank_of(#[trigger] u[j], sort, scores),
    ensures
        u == w,
    decreases u.len(),
{
    if u.len() == 0 {
        if w.len() > 0 {
            assert(u.contains(w[0]));
        }
        assert(u =~= w);
    } else {
        assert(w.contains(u[0]));
        let j = choose|j: int| 0 <= j < w.len() && w[j] == u[0];
        assert(u.contains(w[0]));
        let k = choose|k: int| 0 <= k < u.len() && u[k] == w[0];
        if j > 0 && k > 0 {
            let ru = feed::rank_of(u[0], sort, scores);
            let rw = feed::rank_of(w[0], sort, scores);
            assert(!order::outranks(feed::rank_of(w[j], sort, scores), rw));
            assert(!order::outranks(feed::rank_of(u[k], sort, scores), ru));
            order::lemma_outranks_total(ru, rw);
            assert(ru == rw);
            assert(feed::rank_of(u[0], sort, scores) != feed::rank_of(u[k], sort, scores));
        }
        assert(u[0] == w[0]);
        let x = u.drop_first();
        let y = w.drop_first();
        assert forall|i: int| 0 <= i < x.len() implies y.contains(#[trigger] x[i]) by {
            assert(w.contains(u[i + 1]));
            let p = choose|p: int| 0 <= p < w.len() && w[p] == u[i + 1];
            assert(u[i + 1] != u[0]);
            assert(y[p - 1] == x[i]);
        }
        assert forall|i: int| 0 <= i < y.len() implies x.contains(#[trigger] y[i]) by {
            assert(u.contains(w[i + 1]));
            let p = choose|p: int| 0 <= p < u.len() && u[p] == w[i + 1];
            assert(w[i + 1] != w[0]);
            assert(x[p - 1] == y[i]);
        }
        assert forall|i: int, j: int| 0 <= i < j < x.len() implies !order::outranks(
            feed::rank_of(#[trigger] x[j], sort, scores),
            feed::rank_of(#[trigger] x[i], sort, scores),
        ) by {
            assert(x[i] == u[i + 1] && x[j] == u[j + 1]);
        }
        assert forall|i: int, j: int| 0 <= i < j < y.len() implies !order::outranks(
            feed::rank_of(#[trigger] y[j], sort, scores),
            feed::rank_of(#[trigger] y[i], sort, scores),
        ) by {
            assert(y[i] == w[i + 1] && y[j] == w[j + 1]);
        }
        assert forall|i: int, j: int| 0 <= i < x.len() && 0 <= j < x.len() && i != j implies feed::rank_of(
            #[trigger] x[i],
            sort,
            scores,
        ) != feed::rank_of(#[trigger] x[j], sort, scores) by {
            assert(x[i] == u[i + 1] && x[j] == u[j + 1]);
        }
        lemma_one_order(x, y, sort, scores);
        assert(u =~= seq![u[0]] + x);
        assert(w =~= seq![w[0]] + y);
    }
}

/// The same ids, in some order, are ranked into the same listing.
proof fn lemma_same_listing(
    a: StateModel,
    b: StateModel,
    p: Seq<Seq<char>>,
    q: Seq<Seq<char>>,
    sort: SortBy,
    scores: Map<Seq<char>, i64>,
)
    requires
        convergence::converged(a, b),
        p.no_duplicates(),
        q.no_duplicates(),
        p.to_multiset() == q.to_multiset(),
    ensures
        feed::ranked_views(feed::visible(a, p), sort, scores) == feed::ranked_views(feed::visible(b, q), sort, scores),
{
    let u = feed::ranked_views(feed::visible(a, p), sort, scores);
    let w = feed::ranked_views(feed::visible(b, q), sort, scores);
    listing::lemma_shown_and_ranked(a, p, sort, scores);
    listing::lemma_shown_and_ranked(b, q, sort, scores);
    p.to_multiset_ensures();
    q.to_multiset_ensures();
    let us = listing::ids_of(u);
    let ws = listing::ids_of(w);
    assert forall|id: Seq<char>| p.contains(id) == q.contains(id) by {
        assert(p.contains(id) <==> p.to_multiset().count(id) > 0);
        assert(q.contains(id) <==> q.to_multiset().count(id) > 0);
    }
    assert forall|id: Seq<char>| us.contains(id) == ws.contains(id) by {
        law_converged_nodes_show_the_same_posts(a, b, id);
        assert(p.contains(id) == q.contains(id));
    }
    assert forall|i: int| 0 <= i < u.len() implies w.contains(#[trigger] u[i]) by {
        let id = u[i].id;
        assert(us[i] == id);
        assert(us.contains(id));
        assert(ws.contains(id));
        let j = choose|j: int| 0 <= j < ws.len() && ws[j] == id;
        law_converged_nodes_show_the_same_posts(a, b, id);
        assert(w[j] == feed::post_view(b, w[j].id));
        assert(w[j] == u[i]);
    }
    assert forall|i: int| 0 <= i < w.len() implies u.contains(#[trigger] w[i]) by {
        let id = w[i].id;
        assert(ws[i] == id);
        assert(ws.contains(id));
        assert(us.contains(id));
        let j = choose|j: int| 0 <= j < us.len() && us[j] == id;
        law_converged_nodes_show_the_same_posts(a, b, id);
        assert(u[j] == feed::post_view(a, u[j].id));
        assert(u[j] == w[i]);
    }
    assert forall|i: int, j: int| 0 <= i < u.len() && 0 <= j < u.len() && i != j implies feed::rank_of(
        #[trigger] u[i],
        sort,
        scores,
    ) != feed::rank_of(#[trigger] u[j], sort, scores) by {
        assert(us[i] != us[j]);
    }
    assert(u.no_duplicates()) by {
        assert forall|i: int, j: int| 0 <= i < u.len() && 0 <= j < u.len() && i != j implies u[i] != u[j] by {
            assert(us[i] != us[j]);
        }
    }
    assert(w.no_duplicates()) by {
        assert forall|i: int, j: int| 0 <= i < w.len() && 0 <= j < w.len() && i != j implies w[i] != w[j] by {
            assert(ws[i] != ws[j]);
        }
    }
    lemma_one_order(u, w, sort, scores);
}

/// Nodes that have converged list the threads of a board alike, in the same order.
pub proof fn law_converged_nodes_list_the_same_threads(
    a: StateModel,
    b: StateModel,
    board: Seq<char>,
    sort: SortBy,
    scores: Map<Seq<char>, i64>,
    limit: nat,
)
    requires
        convergence::converged(a, b),
        laws::sound(a),
        laws::sound(b),
    ensures
        feed::first(
            feed::ranked_views(feed::visible(a, readmodel::list_at(a.board_threads, board)), sort, scores),
            limit as int,
        ) == feed::first(
            feed::ranked_views(feed::visible(b, readmodel::list_at(b.board_threads, board)), sort, scores),
            limit as int,
        ),
{
    lemma_same_listing(
        a,
        b,
        readmodel::list_at(a.board_threads, board),
        readmodel::list_at(b.board_threads, board),
        sort,
        scores,
    );
}

/// Nodes that have converged show the same feed of the same thread roots, in the same order.
pub proof fn law_converged_nodes_show_the_same_feed(
    a: StateModel,
    b: StateModel,
    ids: Set<Seq<char>>,
    sort: SortBy,
    scores: Map<Seq<char>, i64>,
    limit: nat,
    u: Seq<PostViewModel>,
    w: Seq<PostViewModel>,
)
    requires
        convergence::converged(a, b),
        feed::feed_of(a, ids, sort, scores, limit as int, u),
        feed::feed_of(b, ids, sort, scores, limit as int, w),
    ensures
        u == w,
{
    let p = choose|listed: Seq<Seq<char>>| #[trigger]
        feed::enumerates(listed, ids) && u == feed::first(
            feed::ranked_views(listed.map_values(|id: Seq<char>| feed::post_view(a, id)), sort, scores),
            limit as int,
        );
    let q = choose|listed: Seq<Seq<char>>| #[trigger]
        feed::enumerates(listed, ids) && w == feed::first(
            feed::ranked_views(listed.map_values(|id: Seq<char>| feed::post_view(b, id)), sort, scores),
            limit as int,
        );
    let from = p.map_values(|id: Seq<char>| feed::post_view(a, id));
    let to = q.map_values(|id: Seq<char>| feed::post_view(b, id));
    let x = feed::ranked_views(from, sort, scores);
    let y = feed::ranked_views(to, sort, scores);
    listing::lemma_ranked(from, sort, scores);
    listing::lemma_ranked(to, sort, scores);
    assert(listing::ids_of(from) =~= p);
    assert(listing::ids_of(to) =~= q);
    lemma_views_of(a, p, x);
    lemma_views_of(b, q, y);
    assert forall|i: int| 0 <= i < x.len() implies y.contains(#[trigger] x[i]) by {
        assert(listing::ids_of(y).to_set().contains(x[i].id));
        let j = choose|j: int| 0 <= j < listing::ids_of(y).len() && listing::ids_of(y)[j] == x[i].id;
        law_converged_nodes_show_the_same_posts(a, b, x[i].id);
        assert(y[j] == x[i]);
    }
    assert forall|i: int| 0 <= i < y.len() implies x.contains(#[trigger] y[i]) by {
        assert(listing::ids_of(x).to_set().contains(y[i].id));
        let j = choose|j: int| 0 <= j < listing::ids_of(x).len() && listing::ids_of(x)[j] == y[i].id;
        law_converged_nodes_show_the_same_posts(a, b, y[i].id);
        assert(x[j] == y[i]);
    }
    assert forall|i: int, j: int| 0 <= i < x.len() && 0 <= j < x.len() && i != j implies feed::rank_of(
        #[trigger] x[i],
        sort,
        scores,
    ) != feed::rank_of(#[trigger] x[j], sort, scores) by {
        assert(listing::ids_of(x)[i] != listing::ids_of(x)[j]);
    }
    assert(x.no_duplicates()) by {
        assert forall|i: int, j: int| 0 <= i < x.len() && 0 <= j < x.len() && i != j implies x[i] != x[j] by {
            assert(listing::ids_of(x)[i] != listing::ids_of(x)[j]);
        }
    }
    assert(y.no_duplicates()) by {
        assert forall|i: int, j: int| 0 <= i < y.len() && 0 <= j < y.len() && i != j implies y[i] != y[j] by {
            assert(listing::ids_of(y)[i] != listing::ids_of(y)[j]);
        }
    }
    lemma_one_order(x, y, sort, scores);
}

/// Entries drawn from the views of some ids are views of those ids.
proof fn lemma_views_of(m: StateModel, ids: Seq<Seq<char>>, vs: Seq<PostViewModel>)
    requires
        forall|i: int|
            0 <= i < vs.len() ==> ids.map_values(|id: Seq<char>| feed::post_view(m, id)).contains(#[trigger] vs[i]),
    ensures
        forall|i: int|
            0 <= i < vs.len() ==> (#[trigger] vs[i]) == feed::post_view(m, vs[i].id) && ids.to_set().contains(vs[i].id),
{
    let all = ids.map_values(|id: Seq<char>| feed::post_view(m, id));
    assert forall|i: int| 0 <= i < vs.len() implies (#[trigger] vs[i]) == feed::post_view(m, vs[i].id) && ids.to_set().contains(
        vs[i].id,
    ) by {
        assert(all.contains(vs[i]));
        let j = choose|j: int| 0 <= j < all.len() && all[j] == vs[i];
        assert(all[j] == feed::post_view(m, ids[j]));
        assert(ids.contains(ids[j]));
    }
}

/// Nodes that have converged list the comments below a post alike, in the same order.
pub proof fn law_converged_nodes_list_the_same_comments(
    a: StateModel,
    b: StateModel,
    root: Seq<char>,
    sort: SortBy,
    scores: Map<Seq<char>, i64>,
)
    requires
        convergence::converged(a, b),
        laws::sound(a),
        laws::sound(b),
    ensures
        feed::comment_tree(a, root, a.posts.dom().remove(root), sort, scores) == feed::comment_tree(
            b,
            root,
            b.posts.dom().remove(root),
            sort,
            scores,
        ),
{
    lemma_same_tree(a, b, root, a.posts.dom().remove(root), sort, scores);
}

proof fn lemma_same_tree(
    a: StateModel,
    b: StateModel,
    parent: Seq<char>,
    open: Set<Seq<char>>,
    sort: SortBy,
    scores: Map<Seq<char>, i64>,
)
    requires
        convergence::converged(a, b),
        laws::sound(a),
        laws::sound(b),
    ensures
        feed::comment_tree(a, parent, open, sort, scores) == feed::comment_tree(b, parent, open, sort, scores),
    decreases open.len(), 1int, 0int,
{
    let p = readmodel::list_at(a.children, parent);
    let q = readmodel::list_at(b.children, parent);
    lemma_same_listing(a, b, p, q, sort, scores);
    lemma_same_lines(a, b, feed::ranked_replies(a, parent, sort, scores), open, sort, scores);
}

proof fn lemma_same_lines(
    a: StateModel,
    b: StateModel,
    vs: Seq<PostViewModel>,
    open: Set<Seq<char>>,
    sort: SortBy,
    scores: Map<Seq<char>, i64>,
)
    requires
        convergence::converged(a, b),
        laws::sound(a),
        laws::sound(b),
    ensures
        feed::comment_lines(a, vs, open, sort, scores) == feed::comment_lines(b, vs, open, sort, scores),
    decreases open.len(), 0int, vs.len(),
{
    if vs.len() > 0 {
        lemma_same_lines(a, b, vs.drop_last(), open, sort, scores);
        let v = vs.last();
        if open.finite() && open.contains(v.id) {
            lemma_same_tree(a, b, v.id, open.remove(v.id), sort, scores);
        }
    }
}

} // verus!
