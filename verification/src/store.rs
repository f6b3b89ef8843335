//! The store: validated records folded into a [`State`], and the log that rebuilds it.
//!
//! Records are content-addressed, so replay and gossip are both idempotent: applying the same id twice
//! is a no-op, which makes the store safe to feed from many sources at once.
use crate::ballot;
use crate::diff::DiffLine;
use crate::documents;
use crate::documents::DocumentView;
use crate::feed;
use crate::feed::{PostView, SortBy};
use crate::governance;
use crate::governance::{BanStanding, BoardView, ProposalView};
use crate::karma::SocialKarma;
use crate::listing;
use crate::model::{BoardPolicy, Media};
use crate::order;
use crate::people;
use crate::people::ProfileView;
use crate::reading;
use crate::readmodel;
use crate::readmodel::StateModel;
use crate::record;
use crate::record::{Record, RecordError, RecordModel};
use crate::state::{State, MAX_RECORDS};
use crate::streams;
use crate::streams::StreamView;
use crate::table::Table;
use vstd::prelude::*;

verus! {

/// The read-model of a node, fed only with valid records.
pub struct Store {
    state: State,
}

impl View for Store {
    type V = StateModel;

    closed spec fn view(&self) -> StateModel {
        self.state@
    }
}

/// The model after a record is offered: a flawed record changes nothing.
pub open spec fn offered(m: StateModel, r: RecordModel) -> StateModel {
    if record::flaw(r) is None {
        readmodel::fold(m, r)
    } else {
        m
    }
}

/// The model after a sequence of records is offered.
pub open spec fn offered_all(m: StateModel, rs: Seq<RecordModel>) -> StateModel
    decreases rs.len(),
{
    if rs.len() == 0 {
        m
    } else {
        offered(offered_all(m, rs.drop_last()), rs.last())
    }
}

/// The record is valid and was not seen before: it is the kind that the log keeps.
pub open spec fn accepts(m: StateModel, r: RecordModel) -> bool {
    record::flaw(r) is None && !m.seen.contains(r.id)
}

/// The records of a sequence that are accepted as they come, in order: what the log holds afterwards.
pub open spec fn accepted(m: StateModel, rs: Seq<RecordModel>) -> Seq<RecordModel>
    decreases rs.len(),
{
    if rs.len() == 0 {
        Seq::empty()
    } else {
        let before = accepted(m, rs.drop_last());
        if accepts(offered_all(m, rs.drop_last()), rs.last()) {
            before.push(rs.last())
        } else {
            before
        }
    }
}

/// The records that the lines of a log hold; a line that holds none is passed over.
pub open spec fn readable(lines: Seq<Option<Record>>) -> Seq<RecordModel>
    decreases lines.len(),
{
    if lines.len() == 0 {
        Seq::empty()
    } else {
        match lines.last() {
            Some(r) => readable(lines.drop_last()).push(r@),
            None => readable(lines.drop_last()),
        }
    }
}

impl Store {
    /// The read-model is sound.
    pub closed spec fn wf(&self) -> bool {
        self.state.wf()
    }

    /// An empty store.
    pub fn new() -> (store: Self)
        ensures
            store.wf(),
            store@ == readmodel::nothing(),
    {
        Store { state: State::new() }
    }

    /// The read-model, for queries.
    pub fn state(&self) -> (state: &State)
        requires
            self.wf(),
        ensures
            state.wf(),
            state@ == self@,
    {
        &self.state
    }

    /// Number of distinct records held.
    pub fn len(&self) -> (n: usize)
        requires
            self.wf(),
        ensures
            n == self@.seen.len(),
            n <= MAX_RECORDS,
    {
        self.state.len()
    }

    /// Does the store hold no record?
    pub fn is_empty(&self) -> (empty: bool)
        requires
            self.wf(),
        ensures
            empty == (self@.seen == Set::<Seq<char>>::empty()),
    {
        self.state.is_empty()
    }

    /// Validate and fold a record in. Returns `true` if it was newly applied (and belongs in the log),
    /// `false` if it was a duplicate. Invalid records are rejected and change nothing.
    pub fn ingest(&mut self, rec: &Record) -> (outcome: Result<bool, RecordError>)
        requires
            old(self).wf(),
            old(self)@.seen.len() < MAX_RECORDS,
        ensures
            final(self).wf(),
            final(self)@ == offered(old(self)@, rec@),
            match outcome {
                Ok(newly) => record::flaw(rec@) is None && newly == accepts(old(self)@, rec@),
                Err(e) => record::flaw(rec@) is Some && record::reports(Err(e), record::flaw(rec@), rec@),
            },
    {
        match rec.verify() {
            Ok(()) => Ok(self.state.apply(rec)),
            Err(e) => Err(e),
        }
    }

    /// Fold in one record of the log. Returns `true` if it was newly applied; an invalid record is
    /// skipped.
    pub fn replay(&mut self, rec: &Record) -> (newly: bool)
        requires
            old(self).wf(),
            old(self)@.seen.len() < MAX_RECORDS,
        ensures
            final(self).wf(),
            final(self)@ == offered(old(self)@, rec@),
            newly == accepts(old(self)@, rec@),
    {
        match self.ingest(rec) {
            Ok(newly) => newly,
            Err(_) => false,
        }
    }

    /// Rebuild a store from the lines of a log, oldest first; `None` stands for a line that holds no
    /// record and is skipped. Also tells how many records were applied.
    pub fn open(log: &Vec<Option<Record>>) -> (opened: (Store, usize))
        requires
            log@.len() < MAX_RECORDS,
        ensures
            opened.0.wf(),
            opened.0@ == offered_all(readmodel::nothing(), readable(log@)),
            opened.1 == accepted(readmodel::nothing(), readable(log@)).len(),
    {
        let mut store = Store::new();
        let mut replayed: usize = 0;
        let ghost all = log@;
        let ghost empty = readmodel::nothing();
        let mut i: usize = 0;
        while i < log.len()
            invariant
                i <= log@.len(),
                log@.len() < MAX_RECORDS,
                all == log@,
                empty == readmodel::nothing(),
                store.wf(),
                store@.seen.len() <= i,
                store@ == offered_all(empty, readable(all.take(i as int))),
                replayed == accepted(empty, readable(all.take(i as int))).len(),
                replayed <= i,
            decreases log.len() - i,
        {
            let ghost before = store@;
            let ghost records = readable(all.take(i as int));
            proof {
                assert(all.take(i + 1).drop_last() =~= all.take(i as int));
                assert(all.take(i + 1).last() == log@[i as int]);
                store.lemma_finite();
            }
            if let Some(rec) = &log[i] {
                proof {
                    assert(readable(all.take(i + 1)) == records.push(rec@));
                    assert(records.push(rec@).drop_last() =~= records);
                }
                if store.replay(rec) {
                    replayed = replayed + 1;
                }
                proof {
                    assert(store@.seen == before.seen || store@.seen == before.seen.insert(rec.id@));
                }
            }
            i = i + 1;
        }
        assert(all.take(i as int) =~= all);
        (store, replayed)
    }

    // ----- queries -----

    /// A user's profile, if they have published one.
    pub fn profile(&self, node_id: &str) -> (view: Option<ProfileView>)
        requires
            self.wf(),
        ensures
            match view {
                Some(v) => {
                    &&& self@.profiles.contains_key(node_id@)
                    &&& v.node_id@ == node_id@
                    &&& v.profile@ == self@.profiles[node_id@].profile
                    &&& v.updated_ms == self@.profiles[node_id@].updated_ms
                },
                None => !self@.profiles.contains_key(node_id@),
            },
    {
        self.state.profile(node_id)
    }

    /// The social-karma aggregate of a user.
    pub fn social(&self, node_id: &str) -> (k: SocialKarma)
        requires
            self.wf(),
        ensures
            people::social_is(self@, node_id@, k),
    {
        self.state.social(node_id)
    }

    /// A media descriptor by record id.
    pub fn media(&self, media_id: &str) -> (media: Option<Media>)
        requires
            self.wf(),
        ensures
            match media {
                Some(m) => self@.media.contains_key(media_id@) && m@ == self@.media[media_id@].media,
                None => !self@.media.contains_key(media_id@),
            },
    {
        self.state.media(media_id)
    }

    /// A single post or comment.
    pub fn post(&self, id: &str) -> (view: Option<PostView>)
        requires
            self.wf(),
        ensures
            match view {
                Some(v) => self@.posts.contains_key(id@) && v@ == feed::post_view(self@, id@),
                None => !self@.posts.contains_key(id@),
            },
    {
        self.state.post(id)
    }

    /// Thread roots in a board, ranked and limited.
    pub fn threads(&self, board: &str, sort: SortBy, limit: usize, scores: &Table<i64>) -> (views: Vec<PostView>)
        requires
            self.wf(),
            scores.wf(),
        ensures
            views.deep_view() == feed::first(
                feed::ranked_views(
                    feed::visible(self@, readmodel::list_at(self@.board_threads, board@)),
                    sort,
                    scores@,
                ),
                limit as int,
            ),
            listing::lists_board(self@, board@, sort, scores@, limit as int, views.deep_view()),
            reading::shows_best(self@, reading::thread_of(self@, board@), sort, scores@, limit as int, views.deep_view()),
    {
        self.state.threads(board, sort, limit, scores)
    }

    /// Every descendant comment of a thread root, depth-first.
    pub fn comments(&self, root: &str, sort: SortBy, scores: &Table<i64>) -> (views: Vec<PostView>)
        requires
            self.wf(),
            scores.wf(),
        ensures
            views.deep_view() == feed::comment_tree(self@, root@, self@.posts.dom().remove(root@), sort, scores@),
            listing::lists_comments(self@, root@, views.deep_view()),
            reading::siblings_in_order(views.deep_view(), sort, scores@),
            reading::depth_first(views.deep_view()),
    {
        self.state.comments(root, sort, scores)
    }

    /// A stream with its segments in order.
    pub fn stream(&self, id: &str) -> (view: Option<StreamView>)
        requires
            self.wf(),
            streams::duration_fits(self@, id@),
        ensures
            match view {
                Some(v) => streams::shows_stream(self@, id@, v),
                None => !self@.streams.contains_key(id@),
            },
    {
        self.state.stream(id)
    }

    /// All live streams, newest first.
    pub fn live_streams(&self) -> (views: Vec<StreamView>)
        requires
            self.wf(),
            streams::live_fit(self@),
        ensures
            streams::lists_live(self@, views@),
    {
        self.state.live_streams()
    }

    /// A board with its parameters; the defaults where it was never created.
    pub fn board(&self, board: &str) -> (view: BoardView)
        requires
            self.wf(),
        ensures
            view@ == governance::board_view(self@, board@),
    {
        self.state.board(board)
    }

    /// Every created board, newest first.
    pub fn boards(&self) -> (views: Vec<BoardView>)
        requires
            self.wf(),
        ensures
            governance::lists_boards(self@, views@),
    {
        self.state.boards()
    }

    /// The parameters of a board.
    pub fn board_policy(&self, board: &str) -> (policy: BoardPolicy)
        requires
            self.wf(),
        ensures
            policy == governance::policy_of(self@, board@),
    {
        self.state.board_policy(board)
    }

    /// The one-person-one-vote ban standing of a user in a board.
    pub fn ban_standing(&self, board: &str, target: &str) -> (standing: BanStanding)
        requires
            self.wf(),
        ensures
            governance::standing_is(self@, board@, target@, standing),
    {
        self.state.ban_standing(board, target)
    }

    /// Each voter's ban vote on a user in a board.
    pub fn ban_votes_raw(&self, board: &str, target: &str) -> (votes: Vec<(String, bool)>)
        requires
            self.wf(),
        ensures
            votes@.map_values(|v: (String, bool)| v.0@).no_duplicates(),
            votes@.map_values(|v: (String, bool)| v.0@).to_set() == governance::ban_marks(self@, board@, target@).dom(),
            order::alphabetical(votes@.map_values(|v: (String, bool)| v.0@)),
            forall|i: int|
                0 <= i < votes@.len() ==> (#[trigger] votes@[i]).1 == ballot::holds(
                    governance::ban_marks(self@, board@, target@),
                    votes@[i].0@,
                    1,
                ),
    {
        self.state.ban_votes_raw(board, target)
    }

    /// A policy proposal with its vote standing.
    pub fn proposal(&self, id: &str) -> (view: Option<ProposalView>)
        requires
            self.wf(),
        ensures
            match view {
                Some(v) => self@.proposals.contains_key(id@) && v@ == governance::proposal_view(self@, id@),
                None => !self@.proposals.contains_key(id@),
            },
    {
        self.state.proposal(id)
    }

    /// All policy proposals, of one board where one is named, newest first.
    pub fn proposals(&self, board: Option<&str>) -> (views: Vec<ProposalView>)
        requires
            self.wf(),
        ensures
            governance::lists_proposals(self@, board.deep_view(), views@),
    {
        self.state.proposals(board)
    }

    /// Every thread root that is not hidden, ranked and limited.
    pub fn all_feed(&self, sort: SortBy, limit: usize, scores: &Table<i64>) -> (views: Vec<PostView>)
        requires
            self.wf(),
            scores.wf(),
        ensures
            feed::feed_of(self@, feed::all_roots(self@), sort, scores@, limit as int, views.deep_view()),
            reading::shows_best(self@, reading::thread_anywhere(self@), sort, scores@, limit as int, views.deep_view()),
    {
        self.state.all_feed(sort, limit, scores)
    }

    /// Thread roots by anyone the viewer follows, ranked and limited.
    pub fn home_feed(&self, viewer: &str, sort: SortBy, limit: usize, scores: &Table<i64>) -> (views: Vec<PostView>)
        requires
            self.wf(),
            scores.wf(),
        ensures
            feed::feed_of(self@, feed::home_roots(self@, viewer@), sort, scores@, limit as int, views.deep_view()),
            reading::shows_best(
                self@,
                reading::thread_followed(self@, viewer@),
                sort,
                scores@,
                limit as int,
                views.deep_view(),
            ),
    {
        self.state.home_feed(viewer, sort, limit, scores)
    }

    /// A version of a document.
    pub fn document(&self, id: &str) -> (view: Option<DocumentView>)
        requires
            self.wf(),
        ensures
            match view {
                Some(v) => self@.documents.contains_key(id@) && v@ == documents::document_view(self@, id@),
                None => !self@.documents.contains_key(id@),
            },
    {
        self.state.document(id)
    }

    /// All versions of a document, oldest first.
    pub fn document_history(&self, key: &str) -> (views: Vec<DocumentView>)
        requires
            self.wf(),
        ensures
            documents::shows_each(self@, documents::versions(self@, key@), views@),
            documents::oldest_first(views@),
    {
        self.state.document_history(key)
    }

    /// The latest version of a document.
    pub fn document_latest(&self, key: &str) -> (view: Option<DocumentView>)
        requires
            self.wf(),
        ensures
            match view {
                Some(v) => documents::is_latest(self@, key@, v),
                None => documents::versions(self@, key@) == Set::<Seq<char>>::empty(),
            },
    {
        self.state.document_latest(key)
    }

    /// Every version that an author has published, newest first.
    pub fn documents_by(&self, author: &str) -> (views: Vec<DocumentView>)
        requires
            self.wf(),
        ensures
            documents::shows_each(self@, documents::written_by(self@, author@), views@),
            order::newest_first(views@.map_values(|v: DocumentView| (v.created_ms, v.id@))),
    {
        self.state.documents_by(author)
    }

    /// A line diff between the bodies of two versions: nothing where either is unknown.
    pub fn document_diff(&self, from: &str, to: &str) -> (diff: Vec<DiffLine>)
        requires
            self.wf(),
        ensures
            diff.deep_view() == documents::document_diff_of(self@, from@, to@),
    {
        self.state.document_diff(from, to)
    }

    /// The URIs of what refers to `id`, in ascending order.
    pub fn backlinks(&self, id: &str) -> (uris: Vec<String>)
        requires
            self.wf(),
        ensures
            documents::lists_backlinks(self@, id@, uris.deep_view()),
            order::alphabetical(uris.deep_view()),
    {
        self.state.backlinks(id)
    }

    proof fn lemma_finite(&self)
        requires
            self.wf(),
        ensures
            self@.seen.finite(),
    {
        self.state.lemma_finite();
    }
}

/// The log rebuilds the store. Whatever records a store was offered, valid or not, once or many times,
/// offering it only the ones that it accepted, in the same order, gives the same model; and each of
/// them is accepted again.
pub proof fn law_log_rebuilds_the_store(m: StateModel, rs: Seq<RecordModel>)
    ensures
        offered_all(m, accepted(m, rs)) == offered_all(m, rs),
        accepted(m, accepted(m, rs)) == accepted(m, rs),
    decreases rs.len(),
{
    if rs.len() > 0 {
        let shorter = rs.drop_last();
        law_log_rebuilds_the_store(m, shorter);
        let before = accepted(m, shorter);
        let after = accepted(m, rs);
        if accepts(offered_all(m, shorter), rs.last()) {
            assert(after.drop_last() =~= before);
            assert(after.last() == rs.last());
        }
    }
}

/// A store is the fold of the valid records that it was offered, in order; the others leave no trace.
pub proof fn law_store_folds_the_valid_records(m: StateModel, rs: Seq<RecordModel>)
    ensures
        offered_all(m, rs) == readmodel::fold_all(m, rs.filter(|r: RecordModel| record::flaw(r) is None)),
    decreases rs.len(),
{
    reveal(Seq::filter);
    let valid = |r: RecordModel| record::flaw(r) is None;
    if rs.len() > 0 {
        law_store_folds_the_valid_records(m, rs.drop_last());
        if valid(rs.last()) {
            assert(rs.filter(valid).drop_last() =~= rs.drop_last().filter(valid));
        }
    }
}

/// Lines that hold no record may stand anywhere in a log: they make no difference.
pub proof fn law_damaged_lines_make_no_difference(before: Seq<Option<Record>>, after: Seq<Option<Record>>)
    ensures
        readable(before.push(None) + after) == readable(before + after),
    decreases after.len(),
{
    if after.len() == 0 {
        assert(before.push(None) + after =~= before.push(None));
        assert(before + after =~= before);
        assert(before.push(None).drop_last() =~= before);
    } else {
        law_damaged_lines_make_no_difference(before, after.drop_last());
        assert((before.push(None) + after).drop_last() =~= before.push(None) + after.drop_last());
        assert((before + after).drop_last() =~= before + after.drop_last());
    }
}

/// Offering a record again changes nothing, and it is not accepted again.
pub proof fn law_store_deduplicates(m: StateModel, r: RecordModel)
    ensures
        offered(offered(m, r), r) == offered(m, r),
        !accepts(offered(m, r), r),
{
}

/// A store takes in valid records and nothing else: a record whose id is not the hash of its content, whose
/// author is no NodeId, or whose signature its author's key does not accept, leaves everything as it is; a
/// valid one is remembered, and taken as new exactly the first time.
pub proof fn law_only_valid_records_count(m: StateModel, r: RecordModel)
    ensures
        record::flaw(r) is Some ==> offered(m, r) == m && !accepts(m, r),
        record::flaw(r) is None ==> offered(m, r) == readmodel::fold(m, r) && offered(m, r).seen.contains(r.id),
        record::flaw(r) is None ==> (accepts(m, r) <==> !m.seen.contains(r.id)),
        accepts(m, r) ==> !accepts(offered(m, r), r),
{
}

} // verus!
