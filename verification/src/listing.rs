//! Laws of the feeds and the comment trees: what a reader is shown, and in which order.
use crate::feed;
use crate::feed::{PostViewModel, SortBy};
use crate::laws;
use crate::order;
use crate::readmodel;
use crate::readmodel::StateModel;
use vstd::prelude::*;

verus! {

/// The ids of the listed posts.
pub open spec fn ids_of(vs: Seq<PostViewModel>) -> Seq<Seq<char>> {
    Seq::new(vs.len(), |i: int| vs[i].id)
}

/// Each entry is the view of a post that is shown.
pub open spec fn shown_views(m: StateModel, vs: Seq<PostViewModel>) -> bool {
    forall|i: int| 0 <= i < vs.len() ==> feed::shows(m, (#[trigger] vs[i]).id) && vs[i] == feed::post_view(m, vs[i].id)
}

/// No entry stands behind one that it outranks.
pub open spec fn best_first(vs: Seq<PostViewModel>, sort: SortBy, scores: Map<Seq<char>, i64>) -> bool {
    forall|i: int, j: int|
        0 <= i < j < vs.len() ==> !order::outranks(
            feed::rank_of(#[trigger] vs[j], sort, scores),
            feed::rank_of(#[trigger] vs[i], sort, scores),
        )
}

/// Ranking keeps the same posts, each once, and puts the best first.
pub(crate) proof fn lemma_ranked(vs: Seq<PostViewModel>, sort: SortBy, scores: Map<Seq<char>, i64>)
    ensures
        ({
            let out = feed::ranked_views(vs, sort, scores);
            &&& out.len() == vs.len()
            &&& best_first(out, sort, scores)
            &&& ids_of(vs).no_duplicates() ==> ids_of(out).no_duplicates()
            &&& ids_of(out).to_set() == ids_of(vs).to_set()
            &&& forall|i: int| 0 <= i < out.len() ==> vs.contains(#[trigger] out[i])
        }),
{
    let ranks = feed::ranks_of(vs, sort, scores);
    let at = order::ranking(ranks, vs.len() as int);
    order::law_ranking(ranks, vs.len() as int);
    let out = feed::ranked_views(vs, sort, scores);
    order::lemma_arranged(ids_of(vs), at);
    assert(ids_of(out) =~= order::arranged(ids_of(vs), at));
    assert forall|i: int, j: int| 0 <= i < j < out.len() implies !order::outranks(
        feed::rank_of(#[trigger] out[j], sort, scores),
        feed::rank_of(#[trigger] out[i], sort, scores),
    ) by {
        assert(!order::outranks(ranks[at[j]], ranks[at[i]]));
    }
    assert forall|i: int| 0 <= i < out.len() implies vs.contains(#[trigger] out[i]) by {
        assert(out[i] == vs[at[i]]);
    }
}

/// The visible posts are exactly those of the given ones that are shown, each once.
proof fn lemma_visible(m: StateModel, ids: Seq<Seq<char>>)
    requires
        ids.no_duplicates(),
    ensures
        shown_views(m, feed::visible(m, ids)),
        ids_of(feed::visible(m, ids)).no_duplicates(),
        forall|id: Seq<char>| #[trigger]
            ids_of(feed::visible(m, ids)).contains(id) <==> ids.contains(id) && feed::shows(m, id),
{
    let keep = |id: Seq<char>| feed::shows(m, id);
    let kept = ids.filter(keep);
    let vs = feed::visible(m, ids);
    order::lemma_filtered(ids, keep);
    assert(ids_of(vs) =~= kept);
    assert forall|id: Seq<char>| #[trigger] ids_of(vs).contains(id) <==> ids.contains(id) && feed::shows(m, id) by {
        assert(kept.to_set().contains(id) <==> ids.to_set().filter(keep).contains(id));
    }
    assert forall|i: int| 0 <= i < vs.len() implies feed::shows(m, (#[trigger] vs[i]).id) && vs[i] == feed::post_view(
        m,
        vs[i].id,
    ) by {
        assert(ids_of(vs)[i] == vs[i].id);
        assert(ids_of(vs).contains(vs[i].id));
        assert(vs[i] == feed::post_view(m, kept[i]));
    }
}

pub(crate) proof fn lemma_shown_and_ranked(m: StateModel, ids: Seq<Seq<char>>, sort: SortBy, scores: Map<Seq<char>, i64>)
    requires
        ids.no_duplicates(),
    ensures
        ({
            let out = feed::ranked_views(feed::visible(m, ids), sort, scores);
            &&& shown_views(m, out)
            &&& ids_of(out).no_duplicates()
            &&& best_first(out, sort, scores)
            &&& forall|id: Seq<char>| #[trigger] ids_of(out).contains(id) <==> ids.contains(id) && feed::shows(m, id)
        }),
{
    let vs = feed::visible(m, ids);
    let out = feed::ranked_views(vs, sort, scores);
    lemma_visible(m, ids);
    lemma_ranked(vs, sort, scores);
    assert forall|i: int| 0 <= i < out.len() implies feed::shows(m, (#[trigger] out[i]).id) && out[i] == feed::post_view(
        m,
        out[i].id,
    ) by {
        assert(vs.contains(out[i]));
        let j = choose|j: int| 0 <= j < vs.len() && vs[j] == out[i];
        assert(feed::shows(m, vs[j].id));
    }
    assert forall|id: Seq<char>| #[trigger] ids_of(out).contains(id) <==> ids.contains(id) && feed::shows(m, id) by {
        assert(ids_of(out).to_set().contains(id) <==> ids_of(vs).to_set().contains(id));
    }
}

/// `out` lists the threads of a board: every entry is a thread of that board whose author is not banned
/// there, no thread twice, best first, at most `limit` of them; and where all fit, every such thread is
/// there.
pub open spec fn lists_board(
    m: StateModel,
    board: Seq<char>,
    sort: SortBy,
    scores: Map<Seq<char>, i64>,
    limit: int,
    out: Seq<PostViewModel>,
) -> bool {
    &&& out.len() <= limit
    &&& shown_views(m, out)
    &&& ids_of(out).no_duplicates()
    &&& best_first(out, sort, scores)
    &&& forall|i: int| 0 <= i < out.len() ==> (#[trigger] out[i]).board == board && out[i].parent is None
    &&& out.len() < limit ==> forall|id: Seq<char>| #[trigger]
        feed::shows(m, id) && m.posts[id].post.parent is None && m.posts[id].post.board == board ==> ids_of(
            out,
        ).contains(id)
}

/// A board lists its threads: every entry is a thread of that board whose author is not banned there,
/// no thread twice, best first, at most `limit` of them; and where all fit, every such thread is there.
pub proof fn law_board_listing(
    m: StateModel,
    board: Seq<char>,
    sort: SortBy,
    scores: Map<Seq<char>, i64>,
    limit: nat,
)
    requires
        laws::sound(m),
    ensures
        lists_board(
            m,
            board,
            sort,
            scores,
            limit as int,
            feed::first(
                feed::ranked_views(feed::visible(m, readmodel::list_at(m.board_threads, board)), sort, scores),
                limit as int,
            ),
        ),
{
    let ids = readmodel::list_at(m.board_threads, board);
    let all = feed::ranked_views(feed::visible(m, ids), sort, scores);
    let out = feed::first(all, limit as int);
    lemma_shown_and_ranked(m, ids, sort, scores);
    assert forall|i: int| 0 <= i < out.len() implies (#[trigger] out[i]).board == board && out[i].parent is None by {
        assert(out[i] == all[i]);
        assert(ids_of(all)[i] == out[i].id);
        assert(ids_of(all).contains(out[i].id));
        let j = choose|j: int| 0 <= j < ids.len() && ids[j] == out[i].id;
        assert(m.posts.contains_key(m.board_threads[board][j]));
    }
    lemma_first(m, all, sort, scores, limit);
}

/// A lower limit shows the beginning of the same listing: what is listed up to `k` are the first `k`
/// entries of what is listed up to `limit`, or all of them where there are fewer.
pub proof fn law_lower_limit_shows_a_prefix(all: Seq<PostViewModel>, k: nat, limit: nat)
    requires
        k <= limit,
    ensures
        feed::first(all, k as int) == feed::first(feed::first(all, limit as int), k as int),
        feed::first(all, k as int).is_prefix_of(feed::first(all, limit as int)),
        feed::first(all, k as int).len() == (if k < feed::first(all, limit as int).len() {
            k
        } else {
            feed::first(all, limit as int).len()
        }),
{
    assert(feed::first(all, k as int) =~= feed::first(feed::first(all, limit as int), k as int));
}

/// What holds of a whole listing holds of its first entries.
proof fn lemma_first(
    m: StateModel,
    all: Seq<PostViewModel>,
    sort: SortBy,
    scores: Map<Seq<char>, i64>,
    limit: nat,
)
    requires
        shown_views(m, all),
        ids_of(all).no_duplicates(),
        best_first(all, sort, scores),
    ensures
        ({
            let out = feed::first(all, limit as int);
            &&& out.len() <= limit
            &&& shown_views(m, out)
            &&& ids_of(out).no_duplicates()
            &&& best_first(out, sort, scores)
        }),
{
    let out = feed::first(all, limit as int);
    assert(forall|i: int| 0 <= i < out.len() ==> #[trigger] out[i] == all[i]);
    assert forall|i: int, j: int| 0 <= i < out.len() && 0 <= j < out.len() && i != j implies ids_of(out)[i] != ids_of(
        out,
    )[j] by {
        assert(ids_of(all)[i] == out[i].id);
        assert(ids_of(all)[j] == out[j].id);
    }
}

/// A feed lists thread roots: every entry is one of `ids`, no post twice, best first, as many as there
/// are up to `limit`. With the roots of a home feed for `ids`, a reader sees only threads of those they
/// follow.
pub proof fn law_feed_listing(
    m: StateModel,
    ids: Set<Seq<char>>,
    sort: SortBy,
    scores: Map<Seq<char>, i64>,
    limit: nat,
    out: Seq<PostViewModel>,
)
    requires
        feed::feed_of(m, ids, sort, scores, limit as int, out),
        forall|id: Seq<char>| #[trigger] ids.contains(id) ==> feed::shows(m, id),
    ensures
        out.len() == (if limit < ids.len() {
            limit
        } else {
            ids.len()
        }),
        shown_views(m, out),
        ids_of(out).no_duplicates(),
        best_first(out, sort, scores),
        forall|i: int| 0 <= i < out.len() ==> ids.contains((#[trigger] out[i]).id),
{
    let listed = choose|listed: Seq<Seq<char>>| #[trigger]
        feed::enumerates(listed, ids) && out == feed::first(
            feed::ranked_views(listed.map_values(|id: Seq<char>| feed::post_view(m, id)), sort, scores),
            limit as int,
        );
    let vs = listed.map_values(|id: Seq<char>| feed::post_view(m, id));
    let all = feed::ranked_views(vs, sort, scores);
    lemma_ranked(vs, sort, scores);
    assert(ids_of(vs) =~= listed);
    listed.unique_seq_to_set();
    assert forall|i: int| 0 <= i < all.len() implies feed::shows(m, (#[trigger] all[i]).id) && all[i] == feed::post_view(
        m,
        all[i].id,
    ) && ids.contains(all[i].id) by {
        assert(vs.contains(all[i]));
        let j = choose|j: int| 0 <= j < vs.len() && vs[j] == all[i];
        assert(listed.to_set().contains(listed[j]));
    }
    lemma_first(m, all, sort, scores, limit);
    assert(forall|i: int| 0 <= i < out.len() ==> #[trigger] out[i] == all[i]);
}

// ----- comment trees -----

/// The post `n` replies above `id`.
spec fn ancestor(m: StateModel, id: Seq<char>, n: nat) -> Seq<char>
    decreases n,
{
    if n == 0 {
        id
    } else {
        m.posts[ancestor(m, id, (n - 1) as nat)].post.parent->0
    }
}

/// Every post from `id` up to the one `n` replies above it is in `open`.
spec fn climbs(m: StateModel, id: Seq<char>, n: nat, open: Set<Seq<char>>) -> bool {
    forall|k: nat| k <= n ==> open.contains(#[trigger] ancestor(m, id, k))
}

/// `top` stands above `id`, or is it, and all from one to the other are in `open`.
spec fn hangs_from(m: StateModel, id: Seq<char>, top: Seq<char>, open: Set<Seq<char>>) -> bool {
    exists|n: nat| #[trigger] climbs(m, id, n, open) && ancestor(m, id, n) == top
}

/// Each entry of a comment listing answers `parent` or an entry before it.
pub open spec fn replies_follow(vs: Seq<PostViewModel>, parent: Seq<char>) -> bool {
    forall|i: int|
        0 <= i < vs.len() ==> (#[trigger] vs[i]).parent == Some(parent) || exists|j: int|
            0 <= j < i && vs[i].parent == Some((#[trigger] vs[j]).id)
}

/// Whatever answers an entry, is shown and is in `open` is an entry too.
pub open spec fn replies_listed(m: StateModel, vs: Seq<PostViewModel>, open: Set<Seq<char>>) -> bool {
    forall|id: Seq<char>, above: Seq<char>|
        #![trigger open.contains(id), ids_of(vs).contains(above)]
        open.contains(id) && feed::shows(m, id) && m.posts[id].post.parent == Some(above) && ids_of(vs).contains(above)
            ==> ids_of(vs).contains(id)
}

/// What is proved of a comment listing with `vs` at its top level.
#[verifier::opaque]
spec fn good_lines(
    m: StateModel,
    vs: Seq<PostViewModel>,
    parent: Seq<char>,
    open: Set<Seq<char>>,
    out: Seq<PostViewModel>,
) -> bool {
    &&& shown_views(m, out)
    &&& ids_of(out).no_duplicates()
    &&& replies_follow(out, parent)
    &&& replies_listed(m, out, open)
    &&& forall|i: int| 0 <= i < vs.len() && open.contains((#[trigger] vs[i]).id) ==> ids_of(out).contains(vs[i].id)
    &&& forall|i: int| 0 <= i < out.len() ==> hangs_below(m, (#[trigger] out[i]).id, vs, open)
}

/// `id` hangs from one of the given posts.
spec fn hangs_below(m: StateModel, id: Seq<char>, vs: Seq<PostViewModel>, open: Set<Seq<char>>) -> bool {
    exists|j: int| 0 <= j < vs.len() && hangs_from(m, id, (#[trigger] vs[j]).id, open)
}

/// `vs` are shown replies to `parent`, each once.
pub(crate) open spec fn sibling_group(m: StateModel, vs: Seq<PostViewModel>, parent: Seq<char>) -> bool {
    &&& shown_views(m, vs)
    &&& ids_of(vs).no_duplicates()
    &&& forall|i: int| 0 <= i < vs.len() ==> (#[trigger] vs[i]).parent == Some(parent)
}

/// A post cannot hang from two different replies to the same parent.
proof fn lemma_one_branch(
    m: StateModel,
    id: Seq<char>,
    a: Seq<char>,
    b: Seq<char>,
    parent: Seq<char>,
    open: Set<Seq<char>>,
)
    requires
        !open.contains(parent),
        m.posts[a].post.parent == Some(parent),
        m.posts[b].post.parent == Some(parent),
        hangs_from(m, id, a, open),
        hangs_from(m, id, b, open),
    ensures
        a == b,
{
    let n = choose|n: nat| #[trigger] climbs(m, id, n, open) && ancestor(m, id, n) == a;
    let k = choose|k: nat| #[trigger] climbs(m, id, k, open) && ancestor(m, id, k) == b;
    if n < k {
        assert(ancestor(m, id, (n + 1) as nat) == parent);
        assert(open.contains(ancestor(m, id, (n + 1) as nat)));
    } else if k < n {
        assert(ancestor(m, id, (k + 1) as nat) == parent);
        assert(open.contains(ancestor(m, id, (k + 1) as nat)));
    }
}

/// What hangs from a reply to `v` hangs from `v`.
proof fn lemma_hangs_higher(
    m: StateModel,
    id: Seq<char>,
    w: Seq<char>,
    v: Seq<char>,
    open: Set<Seq<char>>,
)
    requires
        open.contains(v),
        m.posts[w].post.parent == Some(v),
        hangs_from(m, id, w, open.remove(v)),
    ensures
        hangs_from(m, id, v, open),
{
    let n = choose|n: nat| #[trigger] climbs(m, id, n, open.remove(v)) && ancestor(m, id, n) == w;
    let up = (n + 1) as nat;
    assert(ancestor(m, id, up) == v);
    assert forall|k: nat| k <= up implies open.contains(#[trigger] ancestor(m, id, k)) by {
        if k <= n {
            assert(open.remove(v).contains(ancestor(m, id, k)));
        }
    }
    assert(climbs(m, id, up, open));
}

pub(crate) proof fn lemma_group(m: StateModel, parent: Seq<char>, sort: SortBy, scores: Map<Seq<char>, i64>)
    requires
        laws::sound(m),
    ensures
        sibling_group(m, feed::ranked_replies(m, parent, sort, scores), parent),
        forall|id: Seq<char>| #[trigger]
            feed::shows(m, id) && m.posts[id].post.parent == Some(parent) ==> ids_of(
                feed::ranked_replies(m, parent, sort, scores),
            ).contains(id),
{
    let ids = readmodel::list_at(m.children, parent);
    let vs = feed::ranked_replies(m, parent, sort, scores);
    lemma_shown_and_ranked(m, ids, sort, scores);
    assert forall|i: int| 0 <= i < vs.len() implies (#[trigger] vs[i]).parent == Some(parent) by {
        assert(ids_of(vs)[i] == vs[i].id);
        assert(ids_of(vs).contains(vs[i].id));
        let j = choose|j: int| 0 <= j < ids.len() && ids[j] == vs[i].id;
        assert(m.posts.contains_key(m.children[parent][j]));
    }
}

proof fn lemma_tree(
    m: StateModel,
    parent: Seq<char>,
    open: Set<Seq<char>>,
    sort: SortBy,
    scores: Map<Seq<char>, i64>,
)
    requires
        laws::sound(m),
        open.finite(),
        !open.contains(parent),
    ensures
        good_lines(
            m,
            feed::ranked_replies(m, parent, sort, scores),
            parent,
            open,
            feed::comment_tree(m, parent, open, sort, scores),
        ),
    decreases open.len(), 1int, 0int,
{
    lemma_group(m, parent, sort, scores);
    lemma_lines(m, feed::ranked_replies(m, parent, sort, scores), parent, open, sort, scores);
}

proof fn lemma_lines(
    m: StateModel,
    vs: Seq<PostViewModel>,
    parent: Seq<char>,
    open: Set<Seq<char>>,
    sort: SortBy,
    scores: Map<Seq<char>, i64>,
)
    requires
        laws::sound(m),
        open.finite(),
        !open.contains(parent),
        sibling_group(m, vs, parent),
    ensures
        good_lines(m, vs, parent, open, feed::comment_lines(m, vs, open, sort, scores)),
    decreases open.len(), 0int, vs.len(),
{
    let out = feed::comment_lines(m, vs, open, sort, scores);
    if vs.len() > 0 {
        let fewer = vs.drop_last();
        let v = vs.last();
        assert(forall|i: int| 0 <= i < fewer.len() ==> #[trigger] fewer[i] == vs[i]);
        assert(v == vs[vs.len() - 1]);
        assert(sibling_group(m, fewer, parent)) by {
            assert forall|i: int, j: int| 0 <= i < fewer.len() && 0 <= j < fewer.len() && i != j implies ids_of(fewer)[i]
                != ids_of(fewer)[j] by {
                assert(ids_of(vs)[i] == ids_of(fewer)[i]);
                assert(ids_of(vs)[j] == ids_of(fewer)[j]);
            }
        }
        lemma_lines(m, fewer, parent, open, sort, scores);
        let before = feed::comment_lines(m, fewer, open, sort, scores);
        if open.contains(v.id) {
            let rest = open.remove(v.id);
            lemma_tree(m, v.id, rest, sort, scores);
            lemma_group(m, v.id, sort, scores);
            let tree = feed::comment_tree(m, v.id, rest, sort, scores);
            lemma_joined(m, vs, before, tree, parent, open, feed::ranked_replies(m, v.id, sort, scores));
        } else {
            lemma_left_out(m, vs, before, parent, open);
        }
    } else {
        reveal(good_lines);
    }
}

/// A top-level comment that is not in `open` adds nothing.
proof fn lemma_left_out(
    m: StateModel,
    vs: Seq<PostViewModel>,
    out: Seq<PostViewModel>,
    parent: Seq<char>,
    open: Set<Seq<char>>,
)
    requires
        vs.len() > 0,
        !open.contains(vs.last().id),
        good_lines(m, vs.drop_last(), parent, open, out),
    ensures
        good_lines(m, vs, parent, open, out),
{
    reveal(good_lines);
    let fewer = vs.drop_last();
    assert(forall|i: int| 0 <= i < fewer.len() ==> #[trigger] fewer[i] == vs[i]);
    assert forall|i: int| 0 <= i < out.len() implies hangs_below(m, (#[trigger] out[i]).id, vs, open) by {
        assert(hangs_below(m, out[i].id, fewer, open));
        let j = choose|j: int| 0 <= j < fewer.len() && hangs_from(m, out[i].id, (#[trigger] fewer[j]).id, open);
        assert(hangs_from(m, out[i].id, vs[j].id, open));
    }
    assert forall|i: int| 0 <= i < vs.len() && open.contains((#[trigger] vs[i]).id) implies ids_of(out).contains(
        vs[i].id,
    ) by {
        assert(fewer[i] == vs[i]);
    }
}

/// The ids of a listing to which one comment and its tree are joined.
proof fn lemma_joined_ids(before: Seq<PostViewModel>, v: PostViewModel, tree: Seq<PostViewModel>)
    ensures
        forall|x: Seq<char>| #[trigger]
            ids_of(before.push(v) + tree).contains(x) <==> ids_of(before).contains(x) || x == v.id || ids_of(
                tree,
            ).contains(x),
{
    let out = before.push(v) + tree;
    let b = before.len() as int;
    assert forall|x: Seq<char>| #[trigger] ids_of(out).contains(x) <==> ids_of(before).contains(x) || x == v.id || ids_of(
        tree,
    ).contains(x) by {
        if ids_of(out).contains(x) {
            let i = choose|i: int| 0 <= i < ids_of(out).len() && ids_of(out)[i] == x;
            if i < b {
                assert(ids_of(before)[i] == x);
            } else if i > b {
                assert(ids_of(tree)[i - b - 1] == x);
            }
        }
        if ids_of(before).contains(x) {
            let i = choose|i: int| 0 <= i < ids_of(before).len() && ids_of(before)[i] == x;
            assert(ids_of(out)[i] == x);
        }
        if x == v.id {
            assert(ids_of(out)[b] == x);
        }
        if ids_of(tree).contains(x) {
            let i = choose|i: int| 0 <= i < ids_of(tree).len() && ids_of(tree)[i] == x;
            assert(ids_of(out)[b + 1 + i] == x);
        }
    }
}

/// The tree below `v` hangs from `v`, and `v` is not in it.
proof fn lemma_tree_hangs(
    m: StateModel,
    v: Seq<char>,
    below: Seq<PostViewModel>,
    tree: Seq<PostViewModel>,
    open: Set<Seq<char>>,
)
    requires
        open.contains(v),
        sibling_group(m, below, v),
        forall|i: int| 0 <= i < tree.len() ==> hangs_below(m, (#[trigger] tree[i]).id, below, open.remove(v)),
    ensures
        hangs_from(m, v, v, open),
        forall|i: int| 0 <= i < tree.len() ==> hangs_from(m, (#[trigger] tree[i]).id, v, open),
        forall|i: int| 0 <= i < tree.len() ==> open.remove(v).contains((#[trigger] tree[i]).id),
{
    let rest = open.remove(v);
    assert(ancestor(m, v, 0) == v);
    assert(climbs(m, v, 0, open));
    assert forall|i: int| 0 <= i < tree.len() implies hangs_from(m, (#[trigger] tree[i]).id, v, open) && rest.contains(
        tree[i].id,
    ) by {
        let id = tree[i].id;
        assert(hangs_below(m, id, below, rest));
        let j = choose|j: int| 0 <= j < below.len() && hangs_from(m, id, (#[trigger] below[j]).id, rest);
        assert(below[j] == feed::post_view(m, below[j].id));
        lemma_hangs_higher(m, id, below[j].id, v, open);
        let n = choose|n: nat| #[trigger] climbs(m, id, n, rest) && ancestor(m, id, n) == below[j].id;
        assert(rest.contains(ancestor(m, id, 0)));
    }
}

/// What hangs from an earlier comment of the group does not hang from the last.
proof fn lemma_other_branch(
    m: StateModel,
    id: Seq<char>,
    vs: Seq<PostViewModel>,
    parent: Seq<char>,
    open: Set<Seq<char>>,
)
    requires
        vs.len() > 0,
        !open.contains(parent),
        sibling_group(m, vs, parent),
        hangs_below(m, id, vs.drop_last(), open),
    ensures
        !hangs_from(m, id, vs.last().id, open),
        hangs_below(m, id, vs, open),
{
    let fewer = vs.drop_last();
    let k = choose|k: int| 0 <= k < fewer.len() && hangs_from(m, id, (#[trigger] fewer[k]).id, open);
    assert(fewer[k] == vs[k]);
    assert(hangs_from(m, id, vs[k].id, open));
    let last = vs.len() - 1;
    assert(vs[k] == feed::post_view(m, vs[k].id));
    assert(vs[last] == feed::post_view(m, vs[last].id));
    if hangs_from(m, id, vs.last().id, open) {
        lemma_one_branch(m, id, vs[k].id, vs[last].id, parent, open);
        assert(ids_of(vs)[k] == ids_of(vs)[last]);
    }
}

/// No post stands twice in a listing to which a comment and its tree are joined.
proof fn lemma_joined_distinct(
    before: Seq<PostViewModel>,
    v: PostViewModel,
    tree: Seq<PostViewModel>,
)
    requires
        ids_of(before).no_duplicates(),
        ids_of(tree).no_duplicates(),
        !ids_of(before).contains(v.id),
        !ids_of(tree).contains(v.id),
        forall|i: int| 0 <= i < tree.len() ==> !ids_of(before).contains((#[trigger] tree[i]).id),
    ensures
        ids_of(before.push(v) + tree).no_duplicates(),
{
    let out = before.push(v) + tree;
    let b = before.len() as int;
    assert forall|i: int, j: int| 0 <= i < j < out.len() implies ids_of(out)[i] != ids_of(out)[j] by {
        if i < b {
            assert(ids_of(before)[i] == ids_of(out)[i]);
            assert(ids_of(before).contains(ids_of(out)[i]));
        }
        if j < b {
            assert(ids_of(before)[j] == ids_of(out)[j]);
        }
        if i > b {
            assert(ids_of(tree)[i - b - 1] == ids_of(out)[i]);
        }
        if j > b {
            assert(ids_of(tree)[j - b - 1] == ids_of(out)[j]);
            assert(ids_of(tree).contains(ids_of(out)[j]));
            assert(tree[j - b - 1].id == ids_of(out)[j]);
        }
    }
    assert forall|i: int, j: int| 0 <= i < out.len() && 0 <= j < out.len() && i != j implies ids_of(out)[i] != ids_of(
        out,
    )[j] by {
        if i < j {
            assert(ids_of(out)[i] != ids_of(out)[j]);
        } else {
            assert(ids_of(out)[j] != ids_of(out)[i]);
        }
    }
}

/// Each entry still answers the parent or an entry before it.
proof fn lemma_joined_follow(
    before: Seq<PostViewModel>,
    v: PostViewModel,
    tree: Seq<PostViewModel>,
    parent: Seq<char>,
)
    requires
        replies_follow(before, parent),
        replies_follow(tree, v.id),
        v.parent == Some(parent),
    ensures
        replies_follow(before.push(v) + tree, parent),
{
    let out = before.push(v) + tree;
    let b = before.len() as int;
    assert forall|i: int| 0 <= i < out.len() implies (#[trigger] out[i]).parent == Some(parent) || exists|j: int|
        0 <= j < i && out[i].parent == Some((#[trigger] out[j]).id) by {
        if i < b {
            assert(out[i] == before[i]);
            if before[i].parent != Some(parent) {
                let j = choose|j: int| 0 <= j < i && before[i].parent == Some((#[trigger] before[j]).id);
                assert(out[j] == before[j]);
            }
        } else if i > b {
            let t = i - b - 1;
            assert(out[i] == tree[t]);
            if tree[t].parent == Some(v.id) {
                assert(out[b] == v);
            } else {
                let j = choose|j: int| 0 <= j < t && tree[t].parent == Some((#[trigger] tree[j]).id);
                assert(out[b + 1 + j] == tree[j]);
            }
        }
    }
}

/// Whatever answers an entry is still an entry.
proof fn lemma_joined_listed(
    m: StateModel,
    before: Seq<PostViewModel>,
    v: PostViewModel,
    tree: Seq<PostViewModel>,
    parent: Seq<char>,
    open: Set<Seq<char>>,
    below: Seq<PostViewModel>,
)
    requires
        !open.contains(parent),
        m.posts[v.id].post.parent == Some(parent),
        forall|id: Seq<char>| #[trigger]
            feed::shows(m, id) && m.posts[id].post.parent == Some(v.id) ==> ids_of(below).contains(id),
        forall|i: int| 0 <= i < below.len() && open.remove(v.id).contains((#[trigger] below[i]).id) ==> ids_of(
            tree,
        ).contains(below[i].id),
        forall|i: int| 0 <= i < tree.len() ==> open.remove(v.id).contains((#[trigger] tree[i]).id),
        replies_listed(m, before, open),
        replies_listed(m, tree, open.remove(v.id)),
    ensures
        replies_listed(m, before.push(v) + tree, open),
{
    let out = before.push(v) + tree;
    let rest = open.remove(v.id);
    lemma_joined_ids(before, v, tree);
    assert forall|id: Seq<char>, above: Seq<char>|
        #![trigger open.contains(id), ids_of(out).contains(above)]
        open.contains(id) && feed::shows(m, id) && m.posts[id].post.parent == Some(above) && ids_of(out).contains(above) implies ids_of(
        out,
    ).contains(id) by {
        if id == v.id || ids_of(before).contains(above) {
        } else if above == v.id {
            assert(ids_of(below).contains(id));
            let j = choose|j: int| 0 <= j < ids_of(below).len() && ids_of(below)[j] == id;
            assert(below[j].id == id);
            assert(rest.contains(id));
        } else {
            assert(ids_of(tree).contains(above));
            assert(rest.contains(id));
        }
    }
}

/// One more top-level comment and what is below it, put behind the comments before.
proof fn lemma_joined(
    m: StateModel,
    vs: Seq<PostViewModel>,
    before: Seq<PostViewModel>,
    tree: Seq<PostViewModel>,
    parent: Seq<char>,
    open: Set<Seq<char>>,
    below: Seq<PostViewModel>,
)
    requires
        vs.len() > 0,
        !open.contains(parent),
        open.contains(vs.last().id),
        sibling_group(m, vs, parent),
        sibling_group(m, below, vs.last().id),
        forall|id: Seq<char>| #[trigger]
            feed::shows(m, id) && m.posts[id].post.parent == Some(vs.last().id) ==> ids_of(below).contains(id),
        good_lines(m, vs.drop_last(), parent, open, before),
        good_lines(m, below, vs.last().id, open.remove(vs.last().id), tree),
    ensures
        good_lines(m, vs, parent, open, before.push(vs.last()) + tree),
{
    reveal(good_lines);
    let v = vs.last();
    let fewer = vs.drop_last();
    let out = before.push(v) + tree;
    let b = before.len() as int;
    assert(v == vs[vs.len() - 1]);
    assert(v == feed::post_view(m, v.id));
    assert(forall|i: int| 0 <= i < b ==> #[trigger] out[i] == before[i]);
    assert(out[b] == v);
    assert(forall|i: int| b < i < out.len() ==> #[trigger] out[i] == tree[i - b - 1]);
    lemma_tree_hangs(m, v.id, below, tree, open);
    assert forall|i: int| 0 <= i < out.len() implies hangs_below(m, (#[trigger] out[i]).id, vs, open) by {
        if i < b {
            lemma_other_branch(m, before[i].id, vs, parent, open);
        } else {
            assert(hangs_from(m, out[i].id, vs[vs.len() - 1].id, open));
        }
    }
    assert forall|x: Seq<char>| hangs_from(m, x, v.id, open) implies !(#[trigger] ids_of(before).contains(x)) by {
        if ids_of(before).contains(x) {
            let i = choose|i: int| 0 <= i < ids_of(before).len() && ids_of(before)[i] == x;
            assert(before[i].id == x);
            lemma_other_branch(m, x, vs, parent, open);
        }
    }
    assert(!ids_of(tree).contains(v.id)) by {
        if ids_of(tree).contains(v.id) {
            let i = choose|i: int| 0 <= i < ids_of(tree).len() && ids_of(tree)[i] == v.id;
            assert(tree[i].id == v.id);
        }
    }
    lemma_joined_distinct(before, v, tree);
    lemma_joined_follow(before, v, tree, parent);
    lemma_joined_listed(m, before, v, tree, parent, open, below);
    lemma_joined_ids(before, v, tree);
    assert forall|i: int| 0 <= i < vs.len() && open.contains((#[trigger] vs[i]).id) implies ids_of(out).contains(
        vs[i].id,
    ) by {
        if i < fewer.len() {
            assert(fewer[i] == vs[i]);
        }
    }
}

/// What is below the given comments: posts out of `open`, each once, each behind what it answers.
pub(crate) proof fn lemma_below(
    m: StateModel,
    vs: Seq<PostViewModel>,
    parent: Seq<char>,
    open: Set<Seq<char>>,
    sort: SortBy,
    scores: Map<Seq<char>, i64>,
)
    requires
        laws::sound(m),
        open.finite(),
        !open.contains(parent),
        sibling_group(m, vs, parent),
    ensures
        ({
            let out = feed::comment_lines(m, vs, open, sort, scores);
            &&& shown_views(m, out)
            &&& ids_of(out).no_duplicates()
            &&& replies_follow(out, parent)
            &&& forall|i: int| 0 <= i < out.len() ==> open.contains((#[trigger] out[i]).id)
        }),
{
    reveal(good_lines);
    lemma_lines(m, vs, parent, open, sort, scores);
    let out = feed::comment_lines(m, vs, open, sort, scores);
    assert forall|i: int| 0 <= i < out.len() implies open.contains((#[trigger] out[i]).id) by {
        assert(hangs_below(m, out[i].id, vs, open));
        let j = choose|j: int| 0 <= j < vs.len() && hangs_from(m, out[i].id, (#[trigger] vs[j]).id, open);
        let n = choose|n: nat| #[trigger] climbs(m, out[i].id, n, open) && ancestor(m, out[i].id, n) == vs[j].id;
        assert(open.contains(ancestor(m, out[i].id, 0)));
    }
}

/// `out` lists the comments below a thread: every entry is a post whose author is not banned from its
/// board, none stands there twice, each answers the root or an entry before it, and every shown reply to
/// the root or to an entry is an entry itself (the root alone is left out).
pub open spec fn lists_comments(m: StateModel, root: Seq<char>, out: Seq<PostViewModel>) -> bool {
    &&& shown_views(m, out)
    &&& ids_of(out).no_duplicates()
    &&& !ids_of(out).contains(root)
    &&& replies_follow(out, root)
    &&& forall|id: Seq<char>|
        #![trigger feed::shows(m, id)]
        id != root && feed::shows(m, id) && m.posts[id].post.parent is Some && (m.posts[id].post.parent->0 == root
            || ids_of(out).contains(m.posts[id].post.parent->0)) ==> ids_of(out).contains(id)
}

/// The comments below a thread: every entry is a post whose author is not banned from its board, none
/// stands there twice, each answers the root or an entry before it, and every shown reply to the root or
/// to an entry is an entry itself (the root alone is left out).
pub proof fn law_comment_listing(
    m: StateModel,
    root: Seq<char>,
    sort: SortBy,
    scores: Map<Seq<char>, i64>,
)
    requires
        laws::sound(m),
    ensures
        lists_comments(m, root, feed::comment_tree(m, root, m.posts.dom().remove(root), sort, scores)),
{
    let open = m.posts.dom().remove(root);
    let vs = feed::ranked_replies(m, root, sort, scores);
    let out = feed::comment_tree(m, root, open, sort, scores);
    reveal(good_lines);
    vstd::set_lib::lemma_set_subset_finite(m.seen, open);
    lemma_tree(m, root, open, sort, scores);
    lemma_group(m, root, sort, scores);
    assert forall|id: Seq<char>|
        #![trigger feed::shows(m, id)]
        id != root && feed::shows(m, id) && m.posts[id].post.parent is Some && (m.posts[id].post.parent->0 == root || ids_of(
            out,
        ).contains(m.posts[id].post.parent->0)) implies ids_of(out).contains(id) by {
        let above = m.posts[id].post.parent->0;
        assert(open.contains(id));
        if above == root {
            assert(ids_of(vs).contains(id));
            let j = choose|j: int| 0 <= j < ids_of(vs).len() && ids_of(vs)[j] == id;
            assert(vs[j].id == id);
        }
    }
    if ids_of(out).contains(root) {
        let i = choose|i: int| 0 <= i < ids_of(out).len() && ids_of(out)[i] == root;
        assert(hangs_below(m, out[i].id, vs, open));
        let j = choose|j: int| 0 <= j < vs.len() && hangs_from(m, out[i].id, (#[trigger] vs[j]).id, open);
        let n = choose|n: nat| #[trigger] climbs(m, out[i].id, n, open) && ancestor(m, out[i].id, n) == vs[j].id;
        assert(open.contains(ancestor(m, out[i].id, 0)));
    }
}

} // verus!
