//! Feeds: post views, ranking, threads, comment trees and home feeds.
//!
//! `New` and `Top` rank by time and by net score. The other algorithms rank by a score that their
//! caller computes for each post and passes in as a table, post id to score.
use crate::ballot;
use crate::governance;
use crate::listing;
use crate::order;
use crate::order::{Rank, RankKey};
use crate::reading;
use crate::readmodel;
use crate::readmodel::StateModel;
use crate::state::{State, StoredPost};
use crate::table::Table;
use crate::text;
use vstd::prelude::*;

verus! {

/// How to rank a feed of threads or comments.
#[derive(Debug, Clone, Copy, PartialEq, Eq, Structural)]
pub enum SortBy {
    /// Newest first.
    New,
    /// Highest net score (ups - downs) first.
    Top,
    /// Hotness: log score minus an age penalty, with a grace window for new posts.
    Hot,
    /// Wilson lower-bound confidence: how confidently liked, not raw score.
    Best,
    /// Velocity: total engagement decayed steeply by age.
    Trending,
    /// Young posts gaining traction fast.
    Rising,
    /// High engagement that is split.
    Controversial,
}

/// A post or comment as returned to readers: the stored post plus derived vote tallies.
pub struct PostView {
    pub id: String,
    pub author: String,
    pub created_ms: u64,
    pub board: String,
    pub parent: Option<String>,
    pub title: Option<String>,
    pub body: String,
    pub media: Vec<String>,
    pub ups: u64,
    pub downs: u64,
    /// Net score (`ups - downs`).
    pub score: i64,
    /// Number of direct replies.
    pub reply_count: usize,
}

/// What a [`PostView`] says.
#[verifier::ext_equal]
pub struct PostViewModel {
    pub id: Seq<char>,
    pub author: Seq<char>,
    pub created_ms: u64,
    pub board: Seq<char>,
    pub parent: Option<Seq<char>>,
    pub title: Option<Seq<char>>,
    pub body: Seq<char>,
    pub media: Seq<Seq<char>>,
    pub ups: nat,
    pub downs: nat,
    pub score: int,
    pub reply_count: nat,
}

impl View for PostView {
    type V = PostViewModel;

    open spec fn view(&self) -> PostViewModel {
        PostViewModel {
            id: self.id@,
            author: self.author@,
            created_ms: self.created_ms,
            board: self.board@,
            parent: self.parent.deep_view(),
            title: self.title.deep_view(),
            body: self.body@,
            media: self.media.deep_view(),
            ups: self.ups as nat,
            downs: self.downs as nat,
            score: self.score as int,
            reply_count: self.reply_count as nat,
        }
    }
}

impl DeepView for PostView {
    type V = PostViewModel;

    open spec fn deep_view(&self) -> PostViewModel {
        self@
    }
}

/// The view of the post `id`.
pub open spec fn post_view(m: StateModel, id: Seq<char>) -> PostViewModel {
    let p = m.posts[id];
    let marks = ballot::marks_on(m.votes, id);
    PostViewModel {
        id,
        author: p.author,
        created_ms: p.created_ms,
        board: p.post.board,
        parent: p.post.parent,
        title: p.post.title,
        body: p.post.body,
        media: p.post.media,
        ups: ballot::count_of(marks, 1),
        downs: ballot::count_of(marks, -1),
        score: ballot::count_of(marks, 1) - ballot::count_of(marks, -1),
        reply_count: readmodel::list_at(m.children, id).len(),
    }
}

/// A post is shown unless the community has banned its author from its board.
pub open spec fn shows(m: StateModel, id: Seq<char>) -> bool {
    m.posts.contains_key(id) && !governance::banned_raw(m, m.posts[id].post.board, m.posts[id].author)
}

/// The views of those of the posts that are shown.
pub open spec fn visible(m: StateModel, ids: Seq<Seq<char>>) -> Seq<PostViewModel> {
    ids.filter(|id: Seq<char>| shows(m, id)).map_values(|id: Seq<char>| post_view(m, id))
}

/// What a post is ranked by.
pub open spec fn rank_of(v: PostViewModel, sort: SortBy, scores: Map<Seq<char>, i64>) -> Rank {
    Rank {
        key: match sort {
            SortBy::New => 0,
            SortBy::Top => v.score as i64,
            _ => if scores.contains_key(v.id) {
                scores[v.id]
            } else {
                0
            },
        },
        at: v.created_ms,
        id: v.id,
    }
}

/// What each post is ranked by.
pub open spec fn ranks_of(vs: Seq<PostViewModel>, sort: SortBy, scores: Map<Seq<char>, i64>) -> Seq<Rank> {
    Seq::new(vs.len(), |i: int| rank_of(vs[i], sort, scores))
}

/// The posts, best first.
pub open spec fn ranked_views(vs: Seq<PostViewModel>, sort: SortBy, scores: Map<Seq<char>, i64>) -> Seq<PostViewModel> {
    order::arranged(vs, order::ranking(ranks_of(vs, sort, scores), vs.len() as int))
}

/// The first `limit` of the posts.
pub open spec fn first(vs: Seq<PostViewModel>, limit: int) -> Seq<PostViewModel> {
    if limit < vs.len() {
        vs.take(limit)
    } else {
        vs
    }
}

/// The shown replies to `parent`, best first.
pub open spec fn ranked_replies(
    m: StateModel,
    parent: Seq<char>,
    sort: SortBy,
    scores: Map<Seq<char>, i64>,
) -> Seq<PostViewModel> {
    ranked_views(visible(m, readmodel::list_at(m.children, parent)), sort, scores)
}

/// All comments below `parent`, depth-first. `open` holds the posts that are not on the path to
/// `parent`: no post is listed below itself.
pub open spec fn comment_tree(
    m: StateModel,
    parent: Seq<char>,
    open: Set<Seq<char>>,
    sort: SortBy,
    scores: Map<Seq<char>, i64>,
) -> Seq<PostViewModel>
    decreases open.len(), 1int, 0int,
{
    comment_lines(m, ranked_replies(m, parent, sort, scores), open, sort, scores)
}

/// Each of the given comments, followed by the comments below it.
pub open spec fn comment_lines(
    m: StateModel,
    vs: Seq<PostViewModel>,
    open: Set<Seq<char>>,
    sort: SortBy,
    scores: Map<Seq<char>, i64>,
) -> Seq<PostViewModel>
    decreases open.len(), 0int, vs.len(),
{
    if vs.len() == 0 {
        Seq::empty()
    } else {
        let before = comment_lines(m, vs.drop_last(), open, sort, scores);
        let v = vs.last();
        if open.finite() && open.contains(v.id) {
            before.push(v) + comment_tree(m, v.id, open.remove(v.id), sort, scores)
        } else {
            before
        }
    }
}

/// The thread roots that a cross-board feed lists.
pub open spec fn all_roots(m: StateModel) -> Set<Seq<char>> {
    m.posts.dom().filter(|id: Seq<char>| m.posts[id].post.is_root() && shows(m, id))
}

/// Does `follower` follow `followee`?
pub open spec fn follows(m: StateModel, follower: Seq<char>, followee: Seq<char>) -> bool {
    ballot::holds(ballot::marks_on(m.follows, followee), follower, 1)
}

/// The thread roots that the home feed of `viewer` lists.
pub open spec fn home_roots(m: StateModel, viewer: Seq<char>) -> Set<Seq<char>> {
    m.posts.dom().filter(
        |id: Seq<char>| m.posts[id].post.is_root() && follows(m, viewer, m.posts[id].author) && shows(m, id),
    )
}

/// The thread roots in the home feed of `viewer`, or in the cross-board feed.
pub open spec fn roots_for(m: StateModel, viewer: Option<Seq<char>>) -> Set<Seq<char>> {
    match viewer {
        Some(w) => home_roots(m, w),
        None => all_roots(m),
    }
}

/// `views` is the feed of the posts `ids`: ranked, and cut at `limit`.
pub open spec fn feed_of(
    m: StateModel,
    ids: Set<Seq<char>>,
    sort: SortBy,
    scores: Map<Seq<char>, i64>,
    limit: int,
    views: Seq<PostViewModel>,
) -> bool {
    exists|listed: Seq<Seq<char>>| #[trigger]
        enumerates(listed, ids) && views == first(
            ranked_views(listed.map_values(|id: Seq<char>| post_view(m, id)), sort, scores),
            limit,
        )
}

/// `listed` holds every one of `ids` once.
pub open spec fn enumerates(listed: Seq<Seq<char>>, ids: Set<Seq<char>>) -> bool {
    listed.no_duplicates() && listed.to_set() == ids
}

/// The visibility grace window, in seconds, of cross-board and home feeds.
pub fn default_grace() -> (secs: u64)
    ensures
        secs == 6 * 3600,
{
    6 * 3600
}

/// The grace window, in seconds, of the comments below `root`.
pub open spec fn grace_below(m: StateModel, root: Seq<char>) -> u64 {
    if m.posts.contains_key(root) {
        governance::policy_of(m, m.posts[root].post.board).grace_secs
    } else {
        0
    }
}

/// Comments are given the grace window of the board of their thread, none where the thread is unknown.
pub proof fn law_comments_have_their_boards_grace(m: StateModel, root: Seq<char>)
    ensures
        m.posts.dom().contains(root) ==> grace_below(m, root) == governance::board_view(
            m,
            post_view(m, root).board,
        ).policy.grace_secs,
        !m.posts.dom().contains(root) ==> grace_below(m, root) == 0,
{
}

/// Rank views in place, best first.
pub fn rank_views(views: &mut Vec<PostView>, sort: SortBy, scores: &Table<i64>)
    requires
        scores.wf(),
    ensures
        final(views).deep_view() == ranked_views(old(views).deep_view(), sort, scores@),
        reading::in_order(final(views).deep_view(), sort, scores@),
{
    let ghost start = views.deep_view();
    proof {
        assert(reading::scores_fit(start)) by {
            assert(forall|i: int| 0 <= i < start.len() ==> #[trigger] start[i] == views@[i]@);
        }
        reading::lemma_in_order(start, sort, scores@);
    }
    let mut ranks: Vec<RankKey> = Vec::new();
    let n: usize = views.len();
    let mut i: usize = 0;
    while i < n
        invariant
            i <= n,
            n == views@.len(),
            scores.wf(),
            start == views.deep_view(),
            ranks@.len() == i,
            forall|j: int| 0 <= j < i ==> (#[trigger] ranks@[j])@ == rank_of(start[j], sort, scores@),
        decreases n - i,
    {
        let v = &views[i];
        assert(start[i as int] == v@);
        let key: i64 = match sort {
            SortBy::New => 0,
            SortBy::Top => v.score,
            _ => match scores.get(&v.id) {
                Some(s) => *s,
                None => 0,
            },
        };
        ranks.push(RankKey { key, at: v.created_ms, id: v.id.clone() });
        i = i + 1;
    }
    proof {
        assert(order::ranks_in(ranks@) =~= ranks_of(start, sort, scores@));
    }
    let sorted = order::ranked(&ranks);
    let ghost indices = sorted@.map_values(|i: usize| i as int);
    let mut slots: Vec<Option<PostView>> = Vec::new();
    let mut taken: Vec<PostView> = Vec::new();
    std::mem::swap(&mut taken, views);
    for v in it: taken.into_iter()
        invariant
            slots@.len() == it.index(),
            forall|j: int| 0 <= j < slots@.len() ==> (#[trigger] slots@[j]) == Some(it.seq()[j]),
    {
        slots.push(Some(v));
    }
    let mut i: usize = 0;
    assert(views.deep_view() =~= order::arranged(start, indices).take(0));
    while i < n
        invariant
            i <= n,
            n == slots@.len(),
            n == start.len(),
            sorted@.len() == n,
            indices == sorted@.map_values(|i: usize| i as int),
            order::lists_all(indices, n as int),
            forall|j: int| i <= j < n ==> (#[trigger] slots@[indices[j]]) is Some && slots@[indices[j]]->0@ == start[indices[j]],
            views.deep_view() == order::arranged(start, indices).take(i as int),
        decreases n - i,
    {
        let at: usize = sorted[i];
        assert(at as int == indices[i as int]);
        assert(slots@[indices[i as int]] is Some);
        let ghost held = slots@;
        let slot = slots[at].take();
        if let Some(v) = slot {
            let ghost before = views.deep_view();
            views.push(v);
            assert(views.deep_view() =~= before.push(start[at as int]));
        }
        proof {
            assert forall|j: int| i + 1 <= j < n implies (#[trigger] slots@[indices[j]]) is Some && slots@[indices[j]]->0@
                == start[indices[j]] by {
                assert(indices[j] != indices[i as int]);
                assert(held[indices[j]] is Some);
            }
            assert(order::arranged(start, indices).take(i + 1) =~= order::arranged(start, indices).take(i as int).push(
                start[indices[i as int]],
            ));
        }
        i = i + 1;
    }
    assert(order::arranged(start, indices).take(n as int) =~= order::arranged(start, indices));
}

/// A letter in lower case where it is one of `A` to `Z`; any other character as it is.
pub open spec fn ascii_lower(c: char) -> char {
    if 'A' <= c && c <= 'Z' {
        (c as u32 + 32) as char
    } else {
        c
    }
}

/// `str::to_ascii_lowercase`: a copy with `A` to `Z` mapped to `a` to `z` and every other character
/// left unchanged.
pub assume_specification[ str::to_ascii_lowercase ](s: &str) -> (lower: String)
    ensures
        lower@ == s@.map_values(|c: char| ascii_lower(c)),
;

/// The sort that a lower-case name means; unknown names mean [`SortBy::Hot`].
pub open spec fn sort_named(name: Seq<char>) -> SortBy {
    if name == "new"@ {
        SortBy::New
    } else if name == "top"@ {
        SortBy::Top
    } else if name == "best"@ {
        SortBy::Best
    } else if name == "trending"@ {
        SortBy::Trending
    } else if name == "rising"@ {
        SortBy::Rising
    } else if name == "controversial"@ || name == "contro"@ {
        SortBy::Controversial
    } else {
        SortBy::Hot
    }
}

impl SortBy {
    /// Parse a sort name, in any case; unknown values fall back to [`SortBy::Hot`].
    pub fn parse(s: &str) -> (sort: SortBy)
        ensures
            sort == sort_named(s@.map_values(|c: char| ascii_lower(c))),
    {
        let name = s.to_ascii_lowercase();
        if text::same_text(&name, "new") {
            SortBy::New
        } else if text::same_text(&name, "top") {
            SortBy::Top
        } else if text::same_text(&name, "best") {
            SortBy::Best
        } else if text::same_text(&name, "trending") {
            SortBy::Trending
        } else if text::same_text(&name, "rising") {
            SortBy::Rising
        } else if text::same_text(&name, "controversial") || text::same_text(&name, "contro") {
            SortBy::Controversial
        } else {
            SortBy::Hot
        }
    }
}

impl State {
    /// Every post's net score fits 64 bits.
    proof fn lemma_scores_fit(&self)
        requires
            self.wf(),
        ensures
            reading::all_scores_fit(self@),
    {
        self.lemma_votes_bounded();
        assert forall|id: Seq<char>| #[trigger] self@.posts.contains_key(id) implies i64::MIN <= post_view(
            self@,
            id,
        ).score <= i64::MAX by {
            assert(ballot::count_of(ballot::marks_on(self@.votes, id), 1) >= 0);
        }
    }

    fn view_post(&self, id: &str, sp: &StoredPost) -> (view: PostView)
        requires
            self.wf(),
            self@.posts.contains_key(id@),
            sp@ == self@.posts[id@],
        ensures
            view@ == post_view(self@, id@),
            view.score == view.ups - view.downs,
    {
        let (ups, downs) = self.vote_ledger().tally(id);
        let reply_count: usize = match self.child_table().get(id) {
            Some(kids) => kids.len(),
            None => 0,
        };
        let mut media: Vec<String> = Vec::new();
        let mut i: usize = 0;
        while i < sp.post.media.len()
            invariant
                i <= sp.post.media@.len(),
                media@.len() == i,
                forall|j: int| 0 <= j < i ==> (#[trigger] media@[j])@ == sp.post.media@[j].media_id@,
            decreases sp.post.media.len() - i,
        {
            media.push(sp.post.media[i].media_id.clone());
            i = i + 1;
        }
        assert(media.deep_view() =~= sp.post.media.deep_view());
        PostView {
            id: id.to_owned(),
            author: sp.author.clone(),
            created_ms: sp.created_ms,
            board: sp.post.board.clone(),
            parent: sp.post.parent.clone(),
            title: sp.post.title.clone(),
            body: sp.post.body.clone(),
            media,
            ups,
            downs,
            score: ups as i64 - downs as i64,
            reply_count,
        }
    }

    /// A single post or comment view.
    pub fn post(&self, id: &str) -> (view: Option<PostView>)
        requires
            self.wf(),
        ensures
            match view {
                Some(v) => self@.posts.contains_key(id@) && v@ == post_view(self@, id@) && v.score == v.ups - v.downs,
                None => !self@.posts.contains_key(id@),
            },
    {
        match self.post_table().get(id) {
            Some(sp) => Some(self.view_post(id, sp)),
            None => None,
        }
    }

    /// The views of those of the posts that are shown, in the order given.
    fn visible_views(&self, ids: &Vec<String>) -> (views: Vec<PostView>)
        requires
            self.wf(),
        ensures
            views.deep_view() == visible(self@, ids.deep_view()),
    {
        let ghost names = ids.deep_view();
        let ghost keep = |id: Seq<char>| shows(self@, id);
        let ghost view = |id: Seq<char>| post_view(self@, id);
        let mut views: Vec<PostView> = Vec::new();
        let mut i: usize = 0;
        proof {
            order::lemma_filter_none(names, keep);
            assert(views.deep_view() =~= names.take(0).filter(keep).map_values(view));
        }
        while i < ids.len()
            invariant
                i <= ids@.len(),
                names == ids.deep_view(),
                keep == (|id: Seq<char>| shows(self@, id)),
                view == (|id: Seq<char>| post_view(self@, id)),
                self.wf(),
                views.deep_view() == names.take(i as int).filter(keep).map_values(view),
            decreases ids.len() - i,
        {
            let id = &ids[i];
            let ghost before = views.deep_view();
            proof {
                assert(names[i as int] == id@);
                order::lemma_filter_next(names, keep, i as int);
            }
            if let Some(sp) = self.post_table().get(id) {
                if !self.is_banned_raw(&sp.post.board, &sp.author) {
                    views.push(self.view_post(id, sp));
                    proof {
                        assert(views.deep_view() =~= before.push(post_view(self@, id@)));
                        assert(names.take(i + 1).filter(keep).map_values(view) =~= names.take(i as int).filter(
                            keep,
                        ).map_values(view).push(post_view(self@, id@)));
                    }
                }
            }
            i = i + 1;
        }
        proof {
            order::lemma_filter_none(names, keep);
        }
        views
    }

    /// Thread roots in a board, ranked by `sort` and cut at `limit`; threads of banned authors are
    /// hidden.
    pub fn threads(&self, board: &str, sort: SortBy, limit: usize, scores: &Table<i64>) -> (views: Vec<PostView>)
        requires
            self.wf(),
            scores.wf(),
        ensures
            views.deep_view() == first(
                ranked_views(visible(self@, readmodel::list_at(self@.board_threads, board@)), sort, scores@),
                limit as int,
            ),
            listing::lists_board(self@, board@, sort, scores@, limit as int, views.deep_view()),
            reading::shows_best(self@, reading::thread_of(self@, board@), sort, scores@, limit as int, views.deep_view()),
    {
        proof {
            self.lemma_sound();
            self.lemma_scores_fit();
            reading::law_board_shows_its_best_threads(self@, board@, sort, scores@, limit as nat);
            listing::law_board_listing(self@, board@, sort, scores@, limit as nat);
        }
        match self.thread_table().get(board) {
            Some(ids) => {
                let mut views = self.visible_views(ids);
                rank_views(&mut views, sort, scores);
                let ghost all = views.deep_view();
                views.truncate(limit);
                assert(views.deep_view() =~= first(all, limit as int));
                views
            },
            None => {
                let views: Vec<PostView> = Vec::new();
                proof {
                    let none = readmodel::list_at(self@.board_threads, board@);
                    let shown = visible(self@, none);
                    assert(shown =~= Seq::empty()) by {
                        reveal(Seq::filter);
                    }
                    assert(views.deep_view() =~= first(ranked_views(shown, sort, scores@), limit as int));
                }
                views
            },
        }
    }

    /// The grace window, in seconds, that the comments below `root` are ranked with: that of the
    /// root's board, none where the root is unknown.
    pub fn comments_grace(&self, root: &str) -> (secs: u64)
        requires
            self.wf(),
        ensures
            secs == grace_below(self@, root@),
    {
        match self.post_table().get(root) {
            Some(sp) => self.board_policy(&sp.post.board).grace_secs,
            None => 0,
        }
    }

    /// Every descendant comment of a thread root, depth-first, each sibling group ranked by `sort`;
    /// comments of banned authors are hidden together with what is below them.
    pub fn comments(&self, root: &str, sort: SortBy, scores: &Table<i64>) -> (views: Vec<PostView>)
        requires
            self.wf(),
            scores.wf(),
        ensures
            views.deep_view() == comment_tree(self@, root@, self@.posts.dom().remove(root@), sort, scores@),
            listing::lists_comments(self@, root@, views.deep_view()),
            reading::siblings_in_order(views.deep_view(), sort, scores@),
            reading::depth_first(views.deep_view()),
    {
        let mut out: Vec<PostView> = Vec::new();
        let mut path: Vec<String> = Vec::new();
        let ghost open = self@.posts.dom().remove(root@);
        path.push(root.to_owned());
        proof {
            self.lemma_finite();
            self.lemma_sound();
            listing::law_comment_listing(self@, root@, sort, scores@);
            self.lemma_scores_fit();
            reading::law_comments_are_a_tree_in_order(self@, root@, sort, scores@);
            assert forall|id: Seq<char>| #[trigger]
                open.contains(id) <==> self@.posts.contains_key(id) && !path.deep_view().contains(id) by {
                assert(path.deep_view() =~= seq![root@]);
                assert(path.deep_view()[0] == root@);
            }
            assert(out.deep_view() =~= Seq::empty());
        }
        self.collect_comments(root, sort, scores, &mut path, &mut out, Ghost(open));
        assert(out.deep_view() =~= Seq::empty() + comment_tree(self@, root@, open, sort, scores@));
        out
    }

    fn collect_comments(
        &self,
        parent: &str,
        sort: SortBy,
        scores: &Table<i64>,
        path: &mut Vec<String>,
        out: &mut Vec<PostView>,
        Ghost(open): Ghost<Set<Seq<char>>>,
    )
        requires
            self.wf(),
            scores.wf(),
            open.finite(),
            forall|id: Seq<char>| #[trigger]
                open.contains(id) <==> self@.posts.contains_key(id) && !old(path).deep_view().contains(id),
        ensures
            final(path).deep_view() == old(path).deep_view(),
            final(out).deep_view() == old(out).deep_view() + comment_tree(self@, parent@, open, sort, scores@),
        decreases open.len(),
    {
        let mut views: Vec<PostView> = match self.child_table().get(parent) {
            Some(kids) => self.visible_views(kids),
            None => {
                let none: Vec<PostView> = Vec::new();
                proof {
                    let kids = readmodel::list_at(self@.children, parent@);
                    assert(none.deep_view() =~= visible(self@, kids)) by {
                        reveal(Seq::filter);
                    }
                }
                none
            },
        };
        rank_views(&mut views, sort, scores);
        let ghost all = views.deep_view();
        let ghost start = out.deep_view();
        let ghost route = path.deep_view();
        assert(all == ranked_replies(self@, parent@, sort, scores@));
        assert(start =~= start + comment_lines(self@, all.take(0), open, sort, scores@));
        let ghost items = views@;
        for v in it: views.into_iter()
            invariant
                self.wf(),
                scores.wf(),
                open.finite(),
                it.seq() == items,
                all.len() == items.len(),
                forall|j: int| 0 <= j < items.len() ==> (#[trigger] items[j])@ == all[j],
                path.deep_view() == route,
                forall|id: Seq<char>| #[trigger]
                    open.contains(id) <==> self@.posts.contains_key(id) && !route.contains(id),
                out.deep_view() == start + comment_lines(self@, all.take(it.index() as int), open, sort, scores@),
        {
            let ghost i = it.index() as int;
            let ghost before = out.deep_view();
            let id = v.id.clone();
            proof {
                assert(v@ == all[i]);
                assert(all.take(i + 1).drop_last() =~= all.take(i));
                assert(all.take(i + 1).last() == v@);
            }
            if self.post_table().contains(&id) && !text::contains(path, &id) {
                assert(open.contains(id@));
                let ghost rest = open.remove(id@);
                out.push(v);
                path.push(id.clone());
                proof {
                    assert(out.deep_view() =~= before.push(all[i]));
                    assert(path.deep_view() =~= route.push(id@));
                    assert forall|x: Seq<char>| #[trigger]
                        rest.contains(x) <==> self@.posts.contains_key(x) && !path.deep_view().contains(x) by {
                        assert(route.push(id@).contains(x) <==> route.contains(x) || x == id@) by {
                            assert(route.push(id@)[route.len() as int] == id@);
                            if route.contains(x) {
                                let k = choose|k: int| 0 <= k < route.len() && route[k] == x;
                                assert(route.push(id@)[k] == x);
                            }
                            if route.push(id@).contains(x) && x != id@ {
                                let k = choose|k: int| 0 <= k < route.push(id@).len() && route.push(id@)[k] == x;
                                assert(route[k] == x);
                            }
                        }
                    }
                }
                self.collect_comments(&id, sort, scores, path, out, Ghost(rest));
                let ghost full = path.deep_view();
                assert(full.len() == route.len() + 1);
                path.pop();
                proof {
                    assert(path.deep_view() =~= full.drop_last());
                    assert(path.deep_view() =~= route);
                    assert(out.deep_view() =~= start + (comment_lines(self@, all.take(i), open, sort, scores@).push(
                        all[i],
                    ) + comment_tree(self@, id@, rest, sort, scores@)));
                }
            }
        }
        assert(all.take(all.len() as int) =~= all);
    }

    /// The thread roots shown to `viewer`, or all of them, unranked and in no particular order.
    fn root_views(&self, viewer: Option<&str>) -> (views: Vec<PostView>)
        requires
            self.wf(),
        ensures
            exists|listed: Seq<Seq<char>>| #[trigger]
                enumerates(listed, roots_for(self@, viewer.deep_view())) && views.deep_view() == listed.map_values(|id: Seq<char>| post_view(self@, id)),
    {
        let table = self.post_table();
        let ghost names = table.order();
        let ghost who: Option<Seq<char>> = viewer.deep_view();
        let ghost keep = |id: Seq<char>|
            self@.posts[id].post.is_root() && (who is Some ==> follows(self@, who->0, self@.posts[id].author)) && shows(
                self@,
                id,
            );
        let ghost view = |id: Seq<char>| post_view(self@, id);
        let mut views: Vec<PostView> = Vec::new();
        let n: usize = table.len();
        let mut i: usize = 0;
        proof {
            table.lemma_order();
            order::lemma_filter_none(names, keep);
            assert(views.deep_view() =~= names.take(0).filter(keep).map_values(view));
        }
        while i < n
            invariant
                i <= n,
                n == names.len(),
                names == table.order(),
                table.wf(),
                self.wf(),
                table@.dom() == self@.posts.dom(),
                forall|k: Seq<char>| #[trigger] table@.contains_key(k) ==> table@[k]@ == self@.posts[k],
                who == viewer.deep_view(),
                keep == (|id: Seq<char>|
                    self@.posts[id].post.is_root() && (who is Some ==> follows(
                        self@,
                        who->0,
                        self@.posts[id].author,
                    )) && shows(self@, id)),
                view == (|id: Seq<char>| post_view(self@, id)),
                views.deep_view() == names.take(i as int).filter(keep).map_values(view),
            decreases n - i,
        {
            let id = table.key_at(i);
            let sp = table.val_at(i);
            let ghost before = views.deep_view();
            proof {
                order::lemma_filter_next(names, keep, i as int);
            }
            let wanted: bool = match viewer {
                Some(w) => self.is_following(w, &sp.author),
                None => true,
            };
            if sp.post.is_root() && wanted && !self.is_banned_raw(&sp.post.board, &sp.author) {
                views.push(self.view_post(id, sp));
                proof {
                    assert(views.deep_view() =~= before.push(post_view(self@, id@)));
                    assert(names.take(i + 1).filter(keep).map_values(view) =~= names.take(i as int).filter(
                        keep,
                    ).map_values(view).push(post_view(self@, id@)));
                }
            }
            i = i + 1;
        }
        proof {
            order::lemma_filter_none(names, keep);
            order::lemma_filtered(names, keep);
            let listed = names.filter(keep);
            let wanted = roots_for(self@, viewer.deep_view());
            assert(names.to_set().filter(keep) =~= wanted);
            assert(enumerates(listed, wanted));
            assert(views.deep_view() =~= listed.map_values(|id: Seq<char>| post_view(self@, id)));
        }
        views
    }

    /// A cross-board feed of every thread root that is shown, ranked by `sort` and cut at `limit`.
    pub fn all_feed(&self, sort: SortBy, limit: usize, scores: &Table<i64>) -> (views: Vec<PostView>)
        requires
            self.wf(),
            scores.wf(),
        ensures
            feed_of(self@, all_roots(self@), sort, scores@, limit as int, views.deep_view()),
            reading::shows_best(self@, reading::thread_anywhere(self@), sort, scores@, limit as int, views.deep_view()),
    {
        let mut views = self.root_views(None);
        rank_views(&mut views, sort, scores);
        let ghost all = views.deep_view();
        views.truncate(limit);
        proof {
            assert(views.deep_view() =~= first(all, limit as int));
            self.lemma_scores_fit();
            reading::law_feed_shows_the_best_threads(self@, sort, scores@, limit as nat, views.deep_view());
        }
        views
    }

    /// A home feed: thread roots authored by anyone `viewer` follows, ranked by `sort` and cut at
    /// `limit`.
    pub fn home_feed(&self, viewer: &str, sort: SortBy, limit: usize, scores: &Table<i64>) -> (views: Vec<PostView>)
        requires
            self.wf(),
            scores.wf(),
        ensures
            feed_of(self@, home_roots(self@, viewer@), sort, scores@, limit as int, views.deep_view()),
            reading::shows_best(
                self@,
                reading::thread_followed(self@, viewer@),
                sort,
                scores@,
                limit as int,
                views.deep_view(),
            ),
    {
        let mut views = self.root_views(Some(viewer));
        rank_views(&mut views, sort, scores);
        let ghost all = views.deep_view();
        views.truncate(limit);
        proof {
            assert(views.deep_view() =~= first(all, limit as int));
            self.lemma_scores_fit();
            reading::law_home_feed_shows_whom_one_follows(self@, viewer@, sort, scores@, limit as nat, views.deep_view());
        }
        views
    }

    /// Is `follower` following `followee`?
    pub fn is_following(&self, follower: &str, followee: &str) -> (yes: bool)
        requires
            self.wf(),
        ensures
            yes == follows(self@, follower@, followee@),
    {
        match self.follow_ledger().get(followee) {
            Some(b) => b.holds(follower, 1),
            None => false,
        }
    }
}

/// The whole numbers that a post's score is computed from.
#[derive(Debug, Clone, Copy, PartialEq, Eq)]
pub struct Signals {
    /// How old the post is, milliseconds; nothing for a post from the future.
    pub age_ms: u64,
    /// The same in whole seconds.
    pub age_secs: u64,
    /// Votes either way.
    pub engagement: u64,
    /// Is the post within its board's visibility window?
    pub in_grace: bool,
    /// The net score where it is positive.
    pub approval: u64,
    /// The smaller and the larger side of a split vote; nothing where the vote is not split.
    pub split: Option<(u64, u64)>,
}

/// The signals of a post at a time.
pub open spec fn signals_of(v: PostViewModel, now_ms: u64, grace_secs: u64) -> Signals {
    let age_ms = if now_ms >= v.created_ms {
        now_ms - v.created_ms
    } else {
        0
    };
    Signals {
        age_ms: age_ms as u64,
        age_secs: (age_ms / 1000) as u64,
        engagement: (v.ups + v.downs) as u64,
        in_grace: grace_secs > 0 && age_ms / 1000 <= grace_secs,
        approval: (if v.score > 0 {
            v.score
        } else {
            0
        }) as u64,
        split: if v.ups == 0 || v.downs == 0 {
            None
        } else if v.ups <= v.downs {
            Some((v.ups as u64, v.downs as u64))
        } else {
            Some((v.downs as u64, v.ups as u64))
        },
    }
}

/// The signals of a post at a time.
pub fn signals(v: &PostView, now_ms: u64, grace_secs: u64) -> (signals: Signals)
    requires
        v.ups + v.downs <= u64::MAX,
    ensures
        signals == signals_of(v@, now_ms, grace_secs),
{
    let age_ms: u64 = now_ms.saturating_sub(v.created_ms);
    let age_secs: u64 = age_ms / 1000;
    Signals {
        age_ms,
        age_secs,
        engagement: v.ups + v.downs,
        in_grace: grace_secs > 0 && age_secs <= grace_secs,
        approval: if v.score > 0 {
            v.score as u64
        } else {
            0
        },
        split: if v.ups == 0 || v.downs == 0 {
            None
        } else if v.ups <= v.downs {
            Some((v.ups, v.downs))
        } else {
            Some((v.downs, v.ups))
        },
    }
}

/// What a post's score is computed from: its age since it was made, none for one from the future, in whole
/// seconds too; its votes either way together; its net score where that is positive; the two sides of a vote
/// that is split, the smaller first; and whether it is still within the grace window.
pub proof fn law_signals_describe_the_post(v: PostViewModel, now_ms: u64, grace_secs: u64)
    requires
        v.ups + v.downs <= u64::MAX,
        v.score <= u64::MAX,
    ensures
        ({
            let s = signals_of(v, now_ms, grace_secs);
            &&& now_ms >= v.created_ms ==> v.created_ms + s.age_ms == now_ms
            &&& now_ms < v.created_ms ==> s.age_ms == 0
            &&& s.age_secs * 1000 <= s.age_ms < (s.age_secs + 1) * 1000
            &&& s.engagement == v.ups + v.downs
            &&& s.in_grace <==> grace_secs > 0 && s.age_ms < (grace_secs + 1) * 1000
            &&& v.score >= 0 ==> s.approval == v.score
            &&& v.score < 0 ==> s.approval == 0
            &&& s.split is None <==> v.ups == 0 || v.downs == 0
            &&& s.split matches Some((few, many)) ==> few <= many && few + many == v.ups + v.downs && (few == v.ups
                || few == v.downs)
        }),
{
}

} // verus!
