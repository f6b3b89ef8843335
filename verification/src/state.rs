//! [`State`]: the materialized read-model, folded from a stream of records.
//!
//! `apply` folds one record in. The fold is idempotent (a record whose id was seen before is a no-op)
//! and order-tolerant: where two records speak of one thing, their stamps decide, never which of them
//! came first.
use crate::ballot;
use crate::ballot::{Ledger, Mark};
pub use crate::feed::{PostView, SortBy};
pub use crate::governance::{BanStanding, BoardView, ProposalView};
use crate::laws;
use crate::model::{
    BanVote, BoardCreate, BoardPolicy, Body, DeviceLink, Document, Media, PolicyProposal, PolicyVote, Post, Profile,
    StreamSegment, StreamStart,
};
pub use crate::people::ProfileView;
use crate::readmodel;
use crate::readmodel::{
    BoardEntry, DocumentEntry, LinkEntry, MediaEntry, PartsEntry, PostEntry, ProfileEntry, ProposalEntry,
    RecordingEntry, SegmentEntry, StateModel, StreamEntry,
};
use crate::record::Record;
use crate::stamp;
pub use crate::streams::StreamView;
use crate::table::Table;
use vstd::hash_set::StringHashSet;
use vstd::prelude::*;

verus! {

/// How many records one node can hold. Counts up to here are exact as IEEE-754 doubles.
pub const MAX_RECORDS: u64 = 0x20_0000_0000_0000;

/// A profile as stored.
pub struct StoredProfile {
    pub profile: Profile,
    pub updated_ms: u64,
    pub id: String,
}

impl View for StoredProfile {
    type V = ProfileEntry;

    open spec fn view(&self) -> ProfileEntry {
        ProfileEntry { profile: self.profile@, updated_ms: self.updated_ms, id: self.id@ }
    }
}

/// A device's link to its owner as stored.
pub struct StoredLink {
    pub link: DeviceLink,
    pub updated_ms: u64,
    pub id: String,
}

impl View for StoredLink {
    type V = LinkEntry;

    open spec fn view(&self) -> LinkEntry {
        LinkEntry { link: self.link@, updated_ms: self.updated_ms, id: self.id@ }
    }
}

/// A media descriptor as stored.
pub struct StoredMedia {
    pub author: String,
    pub created_ms: u64,
    pub media: Media,
}

impl View for StoredMedia {
    type V = MediaEntry;

    open spec fn view(&self) -> MediaEntry {
        MediaEntry { author: self.author@, created_ms: self.created_ms, media: self.media@ }
    }
}

/// A post or comment as stored.
pub struct StoredPost {
    pub author: String,
    pub created_ms: u64,
    pub post: Post,
}

impl View for StoredPost {
    type V = PostEntry;

    open spec fn view(&self) -> PostEntry {
        PostEntry { author: self.author@, created_ms: self.created_ms, post: self.post@ }
    }
}

/// A version of a document as stored.
pub struct StoredDocument {
    pub author: String,
    pub created_ms: u64,
    pub document: Document,
}

impl View for StoredDocument {
    type V = DocumentEntry;

    open spec fn view(&self) -> DocumentEntry {
        DocumentEntry { author: self.author@, created_ms: self.created_ms, document: self.document@ }
    }
}

/// A policy proposal as stored.
pub struct StoredProposal {
    pub author: String,
    pub created_ms: u64,
    pub proposal: PolicyProposal,
}

impl View for StoredProposal {
    type V = ProposalEntry;

    open spec fn view(&self) -> ProposalEntry {
        ProposalEntry { author: self.author@, created_ms: self.created_ms, proposal: self.proposal@ }
    }
}

/// A board as stored; `claim` is the id of the winning claim, which makes the first claim
/// deterministic whatever the order of arrival.
pub struct BoardRec {
    pub title: String,
    pub description: String,
    pub policy: BoardPolicy,
    pub created_ms: u64,
    pub claim: String,
}

impl View for BoardRec {
    type V = BoardEntry;

    open spec fn view(&self) -> BoardEntry {
        BoardEntry {
            title: self.title@,
            description: self.description@,
            policy: self.policy,
            created_ms: self.created_ms,
            claim: self.claim@,
        }
    }
}

/// The segments ascend strictly by sequence number.
pub open spec fn playlist_ordered(segments: Seq<SegmentEntry>) -> bool {
    forall|i: int, j: int|
        0 <= i < j < segments.len() ==> (#[trigger] segments[i]).segment.seq < (#[trigger] segments[j]).segment.seq
}

/// Some segment has the sequence number `seq`.
pub open spec fn playlist_has(segments: Seq<SegmentEntry>, seq: u64) -> bool {
    exists|i: int| 0 <= i < segments.len() && (#[trigger] segments[i]).segment.seq == seq
}

/// Where the sequence number `seq` stands.
pub open spec fn playlist_index(segments: Seq<SegmentEntry>, seq: u64) -> int {
    choose|i: int| 0 <= i < segments.len() && (#[trigger] segments[i]).segment.seq == seq
}

/// The segments by sequence number.
pub open spec fn playlist_map(segments: Seq<SegmentEntry>) -> Map<u64, SegmentEntry> {
    Map::new(|q: u64| playlist_has(segments, q), |q: u64| segments[playlist_index(segments, q)])
}

/// In an ordered playlist each sequence number stands once.
pub proof fn lemma_playlist_value(segments: Seq<SegmentEntry>, i: int)
    requires
        playlist_ordered(segments),
        0 <= i < segments.len(),
    ensures
        playlist_map(segments).contains_key(segments[i].segment.seq),
        playlist_map(segments)[segments[i].segment.seq] == segments[i],
{
    assert(playlist_has(segments, segments[i].segment.seq));
    let j = playlist_index(segments, segments[i].segment.seq);
    assert(segments[j].segment.seq == segments[i].segment.seq);
}

proof fn lemma_playlist_insert(segments: Seq<SegmentEntry>, i: int, s: SegmentEntry)
    requires
        playlist_ordered(segments),
        0 <= i <= segments.len(),
        forall|j: int| 0 <= j < i ==> (#[trigger] segments[j]).segment.seq < s.segment.seq,
        i < segments.len() ==> s.segment.seq < segments[i].segment.seq,
    ensures
        playlist_ordered(segments.insert(i, s)),
        !playlist_map(segments).contains_key(s.segment.seq),
        playlist_map(segments.insert(i, s)) == playlist_map(segments).insert(s.segment.seq, s),
{
    let after = segments.insert(i, s);
    let seq = s.segment.seq;
    assert forall|p: int, q: int| 0 <= p < q < after.len() implies (#[trigger] after[p]).segment.seq < (
    #[trigger] after[q]).segment.seq by {
        let sp = if p < i { p } else { p - 1 };
        let sq = if q < i { q } else { q - 1 };
        if p != i && q != i {
            assert(segments[sp].segment.seq < segments[sq].segment.seq);
        } else if p == i {
            assert(after[q] == segments[sq]);
            if sq != i {
                assert(segments[i].segment.seq < segments[sq].segment.seq);
            }
        } else {
            assert(after[p] == segments[p]);
        }
    }
    assert forall|j: int| 0 <= j < segments.len() implies (#[trigger] segments[j]).segment.seq != seq by {
        if j > i {
            assert(segments[i].segment.seq < segments[j].segment.seq);
        }
    }
    let expect = playlist_map(segments).insert(seq, s);
    assert forall|k: u64|
        #![trigger playlist_map(after).dom().contains(k)]
        #![trigger expect.dom().contains(k)]
        playlist_map(after).dom().contains(k) == expect.dom().contains(k) && (expect.dom().contains(k)
            ==> playlist_map(after)[k] == expect[k]) by {
        if playlist_has(after, k) {
            let p = playlist_index(after, k);
            if p < i {
                assert(segments[p].segment.seq == k);
            } else if p > i {
                assert(segments[p - 1].segment.seq == k);
            }
        }
        if expect.dom().contains(k) {
            if k == seq {
                assert(after[i].segment.seq == k);
                lemma_playlist_value(after, i);
            } else {
                let p = playlist_index(segments, k);
                lemma_playlist_value(segments, p);
                if p < i {
                    assert(after[p].segment.seq == k);
                    lemma_playlist_value(after, p);
                } else {
                    assert(after[p + 1].segment.seq == k);
                    lemma_playlist_value(after, p + 1);
                }
            }
        }
    }
    assert(playlist_map(after) =~= expect);
}

proof fn lemma_playlist_update(segments: Seq<SegmentEntry>, i: int, s: SegmentEntry)
    requires
        playlist_ordered(segments),
        0 <= i < segments.len(),
        segments[i].segment.seq == s.segment.seq,
    ensures
        playlist_ordered(segments.update(i, s)),
        playlist_map(segments.update(i, s)) == playlist_map(segments).insert(s.segment.seq, s),
{
    let after = segments.update(i, s);
    assert(forall|j: int| 0 <= j < segments.len() ==> (#[trigger] after[j]).segment.seq == segments[j].segment.seq);
    let expect = playlist_map(segments).insert(s.segment.seq, s);
    assert forall|k: u64|
        #![trigger playlist_map(after).dom().contains(k)]
        #![trigger expect.dom().contains(k)]
        playlist_map(after).dom().contains(k) == expect.dom().contains(k) && (expect.dom().contains(k)
            ==> playlist_map(after)[k] == expect[k]) by {
        if playlist_has(after, k) {
            let p = playlist_index(after, k);
            assert(segments[p].segment.seq == k);
            lemma_playlist_value(segments, p);
        }
        if expect.dom().contains(k) {
            if k == s.segment.seq {
                assert(after[i].segment.seq == k);
                lemma_playlist_value(after, i);
            } else {
                let p = playlist_index(segments, k);
                assert(segments[p].segment.seq == k);
                lemma_playlist_value(segments, p);
                assert(after[p].segment.seq == k);
                lemma_playlist_value(after, p);
            }
        }
    }
    assert(playlist_map(after) =~= expect);
}

/// The start of a stream as stored.
pub struct StoredStream {
    pub author: String,
    pub created_ms: u64,
    pub start: StreamStart,
}

impl View for StoredStream {
    type V = StreamEntry;

    open spec fn view(&self) -> StreamEntry {
        StreamEntry { author: self.author@, created_ms: self.created_ms, start: self.start@ }
    }
}

/// A segment as stored, with the stamp of its record.
pub struct StoredSegment {
    pub segment: StreamSegment,
    pub at: u64,
    pub id: String,
}

impl View for StoredSegment {
    type V = SegmentEntry;

    open spec fn view(&self) -> SegmentEntry {
        SegmentEntry { segment: self.segment@, at: self.at, id: self.id@ }
    }
}

/// A recording as stored, with the stamp of its record.
pub struct StoredRecording {
    pub cid: String,
    pub at: u64,
    pub id: String,
}

impl View for StoredRecording {
    type V = RecordingEntry;

    open spec fn view(&self) -> RecordingEntry {
        RecordingEntry { cid: self.cid@, at: self.at, id: self.id@ }
    }
}

/// One author's parts of a stream as stored, with the segments in ascending order.
pub struct StoredParts {
    pub ended: bool,
    pub recording: Option<StoredRecording>,
    pub segments: Vec<StoredSegment>,
}

/// The segments of a stored list.
pub open spec fn slots(segments: Seq<StoredSegment>) -> Seq<SegmentEntry> {
    segments.map_values(|s: StoredSegment| s@)
}

impl View for StoredParts {
    type V = PartsEntry;

    open spec fn view(&self) -> PartsEntry {
        PartsEntry {
            ended: self.ended,
            recording: match self.recording {
                Some(r) => Some(r@),
                None => None,
            },
            segments: playlist_map(slots(self.segments@)),
        }
    }
}

impl StoredParts {
    /// The segments are in order.
    pub open spec fn wf(&self) -> bool {
        playlist_ordered(slots(self.segments@))
    }

    /// No parts.
    pub fn new() -> (parts: Self)
        ensures
            parts.wf(),
            parts@ == readmodel::no_parts(),
    {
        let parts = StoredParts { ended: false, recording: None, segments: Vec::new() };
        assert(parts@.segments =~= Map::<u64, SegmentEntry>::empty());
        parts
    }

    /// Add a segment, unless its sequence number is held by one that is stamped earlier.
    pub fn extend(&mut self, s: &StreamSegment, at: u64, id: &str)
        requires
            old(self).wf(),
        ensures
            final(self).wf(),
            final(self)@ == readmodel::extended(old(self)@, SegmentEntry { segment: s@, at, id: id@ }),
    {
        let ghost start = slots(self.segments@);
        let ghost new = SegmentEntry { segment: s@, at, id: id@ };
        let mut i: usize = self.segments.len();
        while i > 0 && self.segments[i - 1].segment.seq > s.seq
            invariant
                i <= self.segments.len(),
                start == slots(self.segments@),
                *self == *old(self),
                forall|j: int| i <= j < start.len() ==> (#[trigger] start[j]).segment.seq > s.seq,
            decreases i,
        {
            assert(start[i - 1].segment.seq == self.segments@[i - 1].segment.seq);
            i = i - 1;
        }
        if i > 0 && self.segments[i - 1].segment.seq == s.seq {
            proof {
                assert(start[i - 1].segment.seq == s.seq);
                lemma_playlist_value(start, i - 1);
                lemma_playlist_update(start, i - 1, new);
            }
            if stamp::precedes(at, id, self.segments[i - 1].at, &self.segments[i - 1].id) {
                self.segments.set(i - 1, StoredSegment { segment: s.clone(), at, id: id.to_owned() });
                assert(slots(self.segments@) =~= start.update(i - 1, new));
            }
            return;
        }
        proof {
            if i > 0 {
                assert(start[i - 1].segment.seq == self.segments@[i - 1].segment.seq);
            }
        }
        self.segments.insert(i, StoredSegment { segment: s.clone(), at, id: id.to_owned() });
        proof {
            assert(slots(self.segments@) =~= start.insert(i as int, new));
            lemma_playlist_insert(start, i as int, new);
        }
    }

    /// End the stream; keep the recording that is stamped last.
    pub fn conclude(&mut self, cid: &Option<String>, at: u64, id: &str)
        requires
            old(self).wf(),
        ensures
            final(self).wf(),
            final(self)@ == readmodel::concluded(old(self)@, readmodel::recording_of(cid.deep_view(), at, id@)),
    {
        self.ended = true;
        if let Some(cid) = cid {
            let loses: bool = match &self.recording {
                Some(held) => !stamp::precedes(held.at, &held.id, at, id),
                None => false,
            };
            if !loses {
                self.recording = Some(StoredRecording { cid: cid.clone(), at, id: id.to_owned() });
            }
        }
    }
}

/// The parts of a stream by author, as stored.
pub open spec fn parts_in(by: Map<Seq<char>, StoredParts>) -> Map<Seq<char>, PartsEntry> {
    by.map_values(|p: StoredParts| p@)
}

/// Every author's parts are sound.
pub open spec fn parts_sound(by: Table<StoredParts>) -> bool {
    by.wf() && forall|a: Seq<char>| #[trigger] by@.contains_key(a) ==> by@[a].wf()
}

/// The materialized read-model. Build one, fold records through [`State::apply`], then query it.
pub struct State {
    pub(crate) seen: StringHashSet,
    pub(crate) profiles: Table<StoredProfile>,
    pub(crate) media: Table<StoredMedia>,
    pub(crate) posts: Table<StoredPost>,
    pub(crate) board_threads: Table<Vec<String>>,
    pub(crate) children: Table<Vec<String>>,
    pub(crate) votes: Ledger,
    pub(crate) follows: Ledger,
    pub(crate) streams: Table<StoredStream>,
    pub(crate) parts: Table<Table<StoredParts>>,
    pub(crate) boards: Table<BoardRec>,
    pub(crate) ban_votes: Table<Ledger>,
    pub(crate) proposals: Table<StoredProposal>,
    pub(crate) policy_votes: Ledger,
    pub(crate) links: Table<StoredLink>,
    pub(crate) documents: Table<StoredDocument>,
}

impl View for State {
    type V = StateModel;

    closed spec fn view(&self) -> StateModel {
        StateModel {
            seen: self.seen@,
            profiles: self.profiles@.map_values(|p: StoredProfile| p@),
            media: self.media@.map_values(|m: StoredMedia| m@),
            posts: self.posts@.map_values(|p: StoredPost| p@),
            board_threads: self.board_threads@.map_values(|v: Vec<String>| v.deep_view()),
            children: self.children@.map_values(|v: Vec<String>| v.deep_view()),
            votes: self.votes@,
            follows: self.follows@,
            streams: self.streams@.map_values(|s: StoredStream| s@),
            parts: self.parts@.map_values(|by: Table<StoredParts>| parts_in(by@)),
            boards: self.boards@.map_values(|b: BoardRec| b@),
            ban_votes: self.ban_votes@.map_values(|l: Ledger| l@),
            proposals: self.proposals@.map_values(|p: StoredProposal| p@),
            policy_votes: self.policy_votes@,
            links: self.links@.map_values(|l: StoredLink| l@),
            documents: self.documents@.map_values(|d: StoredDocument| d@),
        }
    }
}

impl Default for State {
    fn default() -> (state: Self)
        ensures
            state.wf(),
            state@ == readmodel::nothing(),
    {
        State::new()
    }
}

impl State {
    /// The tables are in order, no count can exceed the number of records, and what they hold hangs
    /// together.
    pub closed spec fn wf(&self) -> bool {
        self.stored() && laws::sound(self@)
    }

    /// The tables are in order, and no count can exceed the number of records.
    closed spec fn stored(&self) -> bool {
        &&& self.seen@.finite()
        &&& self.seen@.len() <= MAX_RECORDS
        &&& self.profiles.wf()
        &&& self.media.wf()
        &&& self.posts.wf()
        &&& self.board_threads.wf()
        &&& self.children.wf()
        &&& self.votes.wf()
        &&& self.votes.total() <= self.seen@.len()
        &&& self.follows.wf()
        &&& self.follows.total() <= self.seen@.len()
        &&& self.streams.wf()
        &&& self.parts.wf()
        &&& forall|s: Seq<char>| #[trigger] self.parts@.contains_key(s) ==> parts_sound(self.parts@[s])
        &&& self.boards.wf()
        &&& self.ban_votes.wf()
        &&& forall|b: Seq<char>| #[trigger]
            self.ban_votes@.contains_key(b) ==> self.ban_votes@[b].wf() && self.ban_votes@[b].total()
                <= self.seen@.len()
        &&& self.proposals.wf()
        &&& self.policy_votes.wf()
        &&& self.policy_votes.total() <= self.seen@.len()
        &&& self.posts@.dom().len() <= self.seen@.len()
        &&& self.links.wf()
        &&& self.documents.wf()
    }

    /// A node that has seen nothing.
    pub fn new() -> (state: Self)
        ensures
            state.wf(),
            state@ == readmodel::nothing(),
    {
        let state = State {
            seen: StringHashSet::new(),
            profiles: Table::new(),
            media: Table::new(),
            posts: Table::new(),
            board_threads: Table::new(),
            children: Table::new(),
            votes: Ledger::new(),
            follows: Ledger::new(),
            streams: Table::new(),
            parts: Table::new(),
            boards: Table::new(),
            ban_votes: Table::new(),
            proposals: Table::new(),
            policy_votes: Ledger::new(),
            links: Table::new(),
            documents: Table::new(),
        };
        assert(state@ =~= readmodel::nothing());
        proof {
            laws::law_nothing_is_sound();
        }
        state
    }

    /// Number of distinct records folded in.
    pub fn len(&self) -> (n: usize)
        requires
            self.wf(),
        ensures
            n == self@.seen.len(),
            n <= MAX_RECORDS,
    {
        self.seen.len()
    }

    /// Has nothing been folded in?
    pub fn is_empty(&self) -> (empty: bool)
        requires
            self.wf(),
        ensures
            empty == (self@.seen == Set::<Seq<char>>::empty()),
    {
        proof {
            if self.seen@.len() == 0 {
                assert(self.seen@ =~= Set::empty());
            }
        }
        self.seen.len() == 0
    }

    /// Has a record with this id already been applied?
    pub fn has(&self, id: &str) -> (seen: bool)
        ensures
            seen == self@.seen.contains(id@),
    {
        self.seen.contains(id)
    }

    /// Profiles by author.
    pub(crate) fn profile_table(&self) -> (table: &Table<StoredProfile>)
        requires
            self.wf(),
        ensures
            table.wf(),
            table@.dom() == self@.profiles.dom(),
            forall|k: Seq<char>| #[trigger] table@.contains_key(k) ==> table@[k]@ == self@.profiles[k],
    {
        assert(self.profiles@.dom() =~= self@.profiles.dom());
        &self.profiles
    }

    /// Media by record id.
    pub(crate) fn media_table(&self) -> (table: &Table<StoredMedia>)
        requires
            self.wf(),
        ensures
            table.wf(),
            table@.dom() == self@.media.dom(),
            forall|k: Seq<char>| #[trigger] table@.contains_key(k) ==> table@[k]@ == self@.media[k],
    {
        assert(self.media@.dom() =~= self@.media.dom());
        &self.media
    }

    /// Posts by record id.
    pub(crate) fn post_table(&self) -> (table: &Table<StoredPost>)
        requires
            self.wf(),
        ensures
            table.wf(),
            table@.dom() == self@.posts.dom(),
            forall|k: Seq<char>| #[trigger] table@.contains_key(k) ==> table@[k]@ == self@.posts[k],
            self@.posts.dom().len() <= self@.seen.len() <= MAX_RECORDS,
    {
        assert(self.posts@.dom() =~= self@.posts.dom());
        &self.posts
    }

    /// Thread roots by board.
    pub(crate) fn thread_table(&self) -> (table: &Table<Vec<String>>)
        requires
            self.wf(),
        ensures
            table.wf(),
            table@.dom() == self@.board_threads.dom(),
            forall|k: Seq<char>| #[trigger] table@.contains_key(k) ==> table@[k].deep_view() == self@.board_threads[k],
    {
        assert(self.board_threads@.dom() =~= self@.board_threads.dom());
        &self.board_threads
    }

    /// Replies by parent.
    pub(crate) fn child_table(&self) -> (table: &Table<Vec<String>>)
        requires
            self.wf(),
        ensures
            table.wf(),
            table@.dom() == self@.children.dom(),
            forall|k: Seq<char>| #[trigger] table@.contains_key(k) ==> table@[k].deep_view() == self@.children[k],
    {
        assert(self.children@.dom() =~= self@.children.dom());
        &self.children
    }

    /// Streams by id.
    pub(crate) fn stream_table(&self) -> (table: &Table<StoredStream>)
        requires
            self.wf(),
        ensures
            table.wf(),
            table@.dom() == self@.streams.dom(),
            forall|k: Seq<char>| #[trigger] table@.contains_key(k) ==> table@[k]@ == self@.streams[k],
    {
        assert(self.streams@.dom() =~= self@.streams.dom());
        &self.streams
    }

    /// What `author` has published of `stream`, if anything.
    pub(crate) fn parts_of(&self, stream: &str, author: &str) -> (parts: Option<&StoredParts>)
        requires
            self.wf(),
        ensures
            match parts {
                Some(p) => p.wf() && p@ == readmodel::parts_at(self@.parts, stream@, author@),
                None => readmodel::parts_at(self@.parts, stream@, author@) == readmodel::no_parts(),
            },
    {
        match self.parts.get(stream) {
            Some(by) => by.get(author),
            None => None,
        }
    }

    /// Versions of documents by record id.
    pub(crate) fn document_table(&self) -> (table: &Table<StoredDocument>)
        requires
            self.wf(),
        ensures
            table.wf(),
            table@.dom() == self@.documents.dom(),
            forall|k: Seq<char>| #[trigger] table@.contains_key(k) ==> table@[k]@ == self@.documents[k],
    {
        assert(self.documents@.dom() =~= self@.documents.dom());
        &self.documents
    }

    /// Boards by name.
    pub(crate) fn board_table(&self) -> (table: &Table<BoardRec>)
        requires
            self.wf(),
        ensures
            table.wf(),
            table@.dom() == self@.boards.dom(),
            forall|k: Seq<char>| #[trigger] table@.contains_key(k) ==> table@[k]@ == self@.boards[k],
    {
        assert(self.boards@.dom() =~= self@.boards.dom());
        &self.boards
    }

    /// Ban votes by board.
    pub(crate) fn ban_table(&self) -> (table: &Table<Ledger>)
        requires
            self.wf(),
        ensures
            table.wf(),
            table@.dom() == self@.ban_votes.dom(),
            forall|k: Seq<char>| #[trigger] table@.contains_key(k) ==> table@[k]@ == self@.ban_votes[k],
            forall|k: Seq<char>| #[trigger]
                table@.contains_key(k) ==> table@[k].wf() && table@[k].total() <= self@.seen.len() <= MAX_RECORDS,
    {
        assert(self.ban_votes@.dom() =~= self@.ban_votes.dom());
        &self.ban_votes
    }

    /// Proposals by record id.
    pub(crate) fn proposal_table(&self) -> (table: &Table<StoredProposal>)
        requires
            self.wf(),
        ensures
            table.wf(),
            table@.dom() == self@.proposals.dom(),
            forall|k: Seq<char>| #[trigger] table@.contains_key(k) ==> table@[k]@ == self@.proposals[k],
    {
        assert(self.proposals@.dom() =~= self@.proposals.dom());
        &self.proposals
    }

    /// Votes by target.
    pub(crate) fn vote_ledger(&self) -> (ledger: &Ledger)
        requires
            self.wf(),
        ensures
            ledger.wf(),
            ledger@ == self@.votes,
            ledger.total() <= self@.seen.len() <= MAX_RECORDS,
    {
        &self.votes
    }

    /// Follows by followee.
    pub(crate) fn follow_ledger(&self) -> (ledger: &Ledger)
        requires
            self.wf(),
        ensures
            ledger.wf(),
            ledger@ == self@.follows,
            ledger.total() <= self@.seen.len() <= MAX_RECORDS,
    {
        &self.follows
    }

    /// Policy votes by proposal.
    pub(crate) fn policy_ledger(&self) -> (ledger: &Ledger)
        requires
            self.wf(),
        ensures
            ledger.wf(),
            ledger@ == self@.policy_votes,
            ledger.total() <= self@.seen.len() <= MAX_RECORDS,
    {
        &self.policy_votes
    }

    /// Links by device.
    pub(crate) fn link_table(&self) -> (table: &Table<StoredLink>)
        requires
            self.wf(),
        ensures
            table.wf(),
            table@.dom() == self@.links.dom(),
            forall|k: Seq<char>| #[trigger] table@.contains_key(k) ==> table@[k]@ == self@.links[k],
    {
        assert(self.links@.dom() =~= self@.links.dom());
        &self.links
    }

    /// What a state holds hangs together.
    pub proof fn lemma_sound(&self)
        requires
            self.wf(),
        ensures
            laws::sound(self@),
    {
    }

    /// No target has more votes than there are records.
    pub proof fn lemma_votes_bounded(&self)
        requires
            self.wf(),
        ensures
            forall|id: Seq<char>|
                ballot::count_of(#[trigger] ballot::marks_on(self@.votes, id), 1) + ballot::count_of(
                    ballot::marks_on(self@.votes, id),
                    -1,
                ) <= MAX_RECORDS,
    {
        self.votes.lemma_wf();
        assert forall|id: Seq<char>|
            ballot::count_of(#[trigger] ballot::marks_on(self@.votes, id), 1) + ballot::count_of(
                ballot::marks_on(self@.votes, id),
                -1,
            ) <= MAX_RECORDS by {
            let marks = ballot::marks_on(self@.votes, id);
            assert(marks.dom().finite());
            ballot::lemma_count_bound(marks);
            assert(marks.dom().len() <= self.votes.total());
        }
    }

    /// What was stored is finitely much.
    pub proof fn lemma_finite(&self)
        requires
            self.wf(),
        ensures
            self@.seen.finite(),
            self@.profiles.dom().finite(),
            self@.media.dom().finite(),
            self@.posts.dom().finite(),
            self@.streams.dom().finite(),
            self@.boards.dom().finite(),
            self@.proposals.dom().finite(),
            self@.documents.dom().finite(),
    {
        self.profiles.lemma_order();
        self.media.lemma_order();
        self.posts.lemma_order();
        self.streams.lemma_order();
        self.boards.lemma_order();
        self.proposals.lemma_order();
        assert(self@.profiles.dom() =~= self.profiles@.dom());
        assert(self@.media.dom() =~= self.media@.dom());
        assert(self@.posts.dom() =~= self.posts@.dom());
        assert(self@.streams.dom() =~= self.streams@.dom());
        assert(self@.boards.dom() =~= self.boards@.dom());
        assert(self@.proposals.dom() =~= self.proposals@.dom());
        self.documents.lemma_order();
        assert(self@.documents.dom() =~= self.documents@.dom());
    }

    /// There is room for the marks and the posts of one more record.
    closed spec fn room(&self) -> bool {
        &&& self.votes.total() < self.seen@.len()
        &&& self.follows.total() < self.seen@.len()
        &&& self.policy_votes.total() < self.seen@.len()
        &&& forall|b: Seq<char>| #[trigger]
            self.ban_votes@.contains_key(b) ==> self.ban_votes@[b].total() < self.seen@.len()
        &&& self.posts@.dom().len() < self.seen@.len()
    }

    /// Fold one record into the model. Returns `true` if it was newly applied, `false` if a record
    /// with this id was seen before.
    pub fn apply(&mut self, r: &Record) -> (newly: bool)
        requires
            old(self).wf(),
            old(self)@.seen.len() < MAX_RECORDS,
        ensures
            final(self).wf(),
            final(self)@ == readmodel::fold(old(self)@, r@),
            newly == !old(self)@.seen.contains(r.id@),
            !newly ==> final(self)@ == old(self)@,
            final(self)@.seen == old(self)@.seen.insert(r.id@),
            final(self)@.seen.len() == old(self)@.seen.len() + (if newly {
                1int
            } else {
                0
            }),
    {
        if self.seen.contains(&r.id) {
            assert(self@.seen =~= old(self)@.seen.insert(r.id@));
            return false;
        }
        self.seen.insert(r.id.clone());
        proof {
            assert(self.stored());
            assert(self.room());
            assert(self@ =~= (StateModel { seen: old(self)@.seen.insert(r.id@), ..old(self)@ }));
        }
        match &r.body {
            Body::Profile(p) => self.apply_profile(&r.id, &r.author, r.created_ms, p),
            Body::Media(m) => self.apply_media(&r.id, &r.author, r.created_ms, m),
            Body::Post(p) => self.apply_post(&r.id, &r.author, r.created_ms, p),
            Body::Vote(v) => self.apply_vote(&r.id, &r.author, &v.target, v.value, r.created_ms),
            Body::Follow(f) => self.apply_follow(&r.id, &r.author, &f.followee, f.active, r.created_ms),
            Body::StreamStart(s) => self.apply_stream_start(&r.id, &r.author, r.created_ms, s),
            Body::StreamSegment(s) => self.apply_stream_segment(&r.id, &r.author, r.created_ms, s),
            Body::StreamEnd(e) => self.apply_stream_end(
                &r.id,
                &r.author,
                r.created_ms,
                &e.stream,
                &e.recording_cid,
            ),
            Body::Document(d) => self.apply_document(&r.id, &r.author, r.created_ms, d),
            Body::BoardCreate(b) => self.apply_board_create(&r.id, r.created_ms, b),
            Body::BanVote(b) => self.apply_ban_vote(&r.id, &r.author, b, r.created_ms),
            Body::PolicyProposal(p) => self.apply_proposal(&r.id, &r.author, r.created_ms, p),
            Body::PolicyVote(v) => self.apply_policy_vote(&r.id, &r.author, v, r.created_ms),
            Body::DeviceLink(l) => self.apply_link(&r.id, &r.author, r.created_ms, l),
        }
        proof {
            assert(self@ == readmodel::fold(old(self)@, r@));
            laws::law_fold_keeps_soundness(old(self)@, r@);
        }
        true
    }

    fn apply_profile(&mut self, id: &str, author: &str, created_ms: u64, p: &Profile)
        requires
            old(self).stored(),
        ensures
            final(self).stored(),
            final(self)@ == (StateModel {
                profiles: if old(self)@.profiles.contains_key(author@) && !stamp::before(
                    old(self)@.profiles[author@].updated_ms,
                    old(self)@.profiles[author@].id,
                    created_ms,
                    id@,
                ) {
                    old(self)@.profiles
                } else {
                    old(self)@.profiles.insert(author@, ProfileEntry { profile: p@, updated_ms: created_ms, id: id@ })
                },
                ..old(self)@
            }),
    {
        let stale: bool = match self.profiles.get(author) {
            Some(held) => !stamp::precedes(held.updated_ms, &held.id, created_ms, id),
            None => false,
        };
        if stale {
            return;
        }
        self.profiles.insert(author, StoredProfile { profile: p.clone(), updated_ms: created_ms, id: id.to_owned() });
        assert(self@.profiles =~= old(self)@.profiles.insert(
            author@,
            ProfileEntry { profile: p@, updated_ms: created_ms, id: id@ },
        ));
    }

    fn apply_link(&mut self, id: &str, device: &str, created_ms: u64, l: &DeviceLink)
        requires
            old(self).stored(),
        ensures
            final(self).stored(),
            final(self)@ == (StateModel {
                links: if old(self)@.links.contains_key(device@) && !stamp::before(
                    old(self)@.links[device@].updated_ms,
                    old(self)@.links[device@].id,
                    created_ms,
                    id@,
                ) {
                    old(self)@.links
                } else {
                    old(self)@.links.insert(device@, LinkEntry { link: l@, updated_ms: created_ms, id: id@ })
                },
                ..old(self)@
            }),
    {
        let stale: bool = match self.links.get(device) {
            Some(held) => !stamp::precedes(held.updated_ms, &held.id, created_ms, id),
            None => false,
        };
        if stale {
            return;
        }
        self.links.insert(device, StoredLink { link: l.clone(), updated_ms: created_ms, id: id.to_owned() });
        assert(self@.links =~= old(self)@.links.insert(
            device@,
            LinkEntry { link: l@, updated_ms: created_ms, id: id@ },
        ));
    }

    fn apply_document(&mut self, id: &str, author: &str, created_ms: u64, d: &Document)
        requires
            old(self).stored(),
        ensures
            final(self).stored(),
            final(self)@ == (StateModel {
                documents: old(self)@.documents.insert(
                    id@,
                    DocumentEntry { author: author@, created_ms, document: d@ },
                ),
                ..old(self)@
            }),
    {
        self.documents.insert(id, StoredDocument { author: author.to_owned(), created_ms, document: d.clone() });
        assert(self@.documents =~= old(self)@.documents.insert(
            id@,
            DocumentEntry { author: author@, created_ms, document: d@ },
        ));
    }

    fn apply_media(&mut self, id: &str, author: &str, created_ms: u64, m: &Media)
        requires
            old(self).stored(),
        ensures
            final(self).stored(),
            final(self)@ == (StateModel {
                media: old(self)@.media.insert(id@, MediaEntry { author: author@, created_ms, media: m@ }),
                ..old(self)@
            }),
    {
        self.media.insert(id, StoredMedia { author: author.to_owned(), created_ms, media: m.clone() });
        assert(self@.media =~= old(self)@.media.insert(id@, MediaEntry { author: author@, created_ms, media: m@ }));
    }

    fn apply_post(&mut self, id: &str, author: &str, created_ms: u64, p: &Post)
        requires
            old(self).stored(),
            old(self).room(),
        ensures
            final(self).stored(),
            final(self)@ == (StateModel {
                posts: old(self)@.posts.insert(id@, PostEntry { author: author@, created_ms, post: p@ }),
                board_threads: if p@.parent is None {
                    old(self)@.board_threads.insert(
                        p@.board,
                        readmodel::list_at(old(self)@.board_threads, p@.board).push(id@),
                    )
                } else {
                    old(self)@.board_threads
                },
                children: if p@.parent is Some {
                    old(self)@.children.insert(
                        p@.parent->0,
                        readmodel::list_at(old(self)@.children, p@.parent->0).push(id@),
                    )
                } else {
                    old(self)@.children
                },
                ..old(self)@
            }),
    {
        match &p.parent {
            None => {
                push_under(&mut self.board_threads, &p.board, id);
            },
            Some(parent) => {
                push_under(&mut self.children, parent, id);
            },
        }
        proof {
            self.posts.lemma_order();
        }
        self.posts.insert(id, StoredPost { author: author.to_owned(), created_ms, post: p.clone() });
        proof {
            assert(self.posts@.dom() =~= old(self).posts@.dom().insert(id@));
            assert(self@.posts =~= old(self)@.posts.insert(id@, PostEntry { author: author@, created_ms, post: p@ }));
            assert(self@.board_threads =~= old(self)@.board_threads || p@.parent is None);
            assert(self@.children =~= old(self)@.children || p@.parent is Some);
        }
    }

    fn apply_vote(&mut self, id: &str, voter: &str, target: &str, value: i8, created_ms: u64)
        requires
            old(self).stored(),
            old(self).room(),
        ensures
            final(self).stored(),
            final(self)@ == (StateModel {
                votes: ballot::ballots_step(
                    old(self)@.votes,
                    target@,
                    voter@,
                    Mark { value: readmodel::clamped(value), at: created_ms, id: id@ },
                ),
                ..old(self)@
            }),
    {
        let vote: i8 = if value > 1 {
            1
        } else if value < -1 {
            -1
        } else {
            value
        };
        self.votes.cast(target, voter, vote, created_ms, id);
    }

    fn apply_follow(&mut self, id: &str, follower: &str, followee: &str, active: bool, created_ms: u64)
        requires
            old(self).stored(),
            old(self).room(),
        ensures
            final(self).stored(),
            final(self)@ == (StateModel {
                follows: ballot::ballots_step(
                    old(self)@.follows,
                    followee@,
                    follower@,
                    Mark { value: readmodel::on_off(active), at: created_ms, id: id@ },
                ),
                ..old(self)@
            }),
    {
        let mark: i8 = if active {
            1
        } else {
            0
        };
        self.follows.cast(followee, follower, mark, created_ms, id);
    }

    fn apply_stream_start(&mut self, id: &str, author: &str, created_ms: u64, s: &StreamStart)
        requires
            old(self).stored(),
        ensures
            final(self).stored(),
            final(self)@ == (StateModel {
                streams: if old(self)@.streams.contains_key(id@) {
                    old(self)@.streams
                } else {
                    old(self)@.streams.insert(id@, StreamEntry { author: author@, created_ms, start: s@ })
                },
                ..old(self)@
            }),
    {
        if self.streams.contains(id) {
            return;
        }
        let rec = StoredStream { author: author.to_owned(), created_ms, start: s.clone() };
        self.streams.insert(id, rec);
        assert(self@.streams =~= old(self)@.streams.insert(id@, rec@));
    }

    fn apply_stream_segment(&mut self, id: &str, author: &str, created_ms: u64, s: &StreamSegment)
        requires
            old(self).stored(),
        ensures
            final(self).stored(),
            final(self)@ == (StateModel {
                parts: readmodel::with_parts(
                    old(self)@.parts,
                    s@.stream,
                    author@,
                    readmodel::extended(
                        readmodel::parts_at(old(self)@.parts, s@.stream, author@),
                        SegmentEntry { segment: s@, at: created_ms, id: id@ },
                    ),
                ),
                ..old(self)@
            }),
    {
        let ghost after = readmodel::extended(
            readmodel::parts_at(old(self)@.parts, s@.stream, author@),
            SegmentEntry { segment: s@, at: created_ms, id: id@ },
        );
        let ghost by_author = readmodel::authors_at(old(self)@.parts, s@.stream);
        if !self.parts.contains(&s.stream) {
            let mut by: Table<StoredParts> = Table::new();
            assert(parts_in(by@) =~= by_author);
            add_segment(&mut by, author, s, created_ms, id);
            self.parts.insert(&s.stream, by);
        } else if let Some(by) = self.parts.get_mut(&s.stream) {
            assert(parts_in(by@) =~= by_author);
            add_segment(by, author, s, created_ms, id);
        }
        assert(self@.parts =~= readmodel::with_parts(old(self)@.parts, s@.stream, author@, after));
    }

    fn apply_stream_end(
        &mut self,
        id: &str,
        author: &str,
        created_ms: u64,
        stream: &str,
        recording: &Option<String>,
    )
        requires
            old(self).stored(),
        ensures
            final(self).stored(),
            final(self)@ == (StateModel {
                parts: readmodel::with_parts(
                    old(self)@.parts,
                    stream@,
                    author@,
                    readmodel::concluded(
                        readmodel::parts_at(old(self)@.parts, stream@, author@),
                        readmodel::recording_of(recording.deep_view(), created_ms, id@),
                    ),
                ),
                ..old(self)@
            }),
    {
        let ghost after = readmodel::concluded(
            readmodel::parts_at(old(self)@.parts, stream@, author@),
            readmodel::recording_of(recording.deep_view(), created_ms, id@),
        );
        let ghost by_author = readmodel::authors_at(old(self)@.parts, stream@);
        if !self.parts.contains(stream) {
            let mut by: Table<StoredParts> = Table::new();
            assert(parts_in(by@) =~= by_author);
            add_end(&mut by, author, recording, created_ms, id);
            self.parts.insert(stream, by);
        } else if let Some(by) = self.parts.get_mut(stream) {
            assert(parts_in(by@) =~= by_author);
            add_end(by, author, recording, created_ms, id);
        }
        assert(self@.parts =~= readmodel::with_parts(old(self)@.parts, stream@, author@, after));
    }

    fn apply_board_create(&mut self, id: &str, created_ms: u64, b: &BoardCreate)
        requires
            old(self).stored(),
        ensures
            final(self).stored(),
            final(self)@ == (StateModel {
                boards: if old(self)@.boards.contains_key(b@.board) && !stamp::before(
                    created_ms,
                    id@,
                    old(self)@.boards[b@.board].created_ms,
                    old(self)@.boards[b@.board].claim,
                ) {
                    old(self)@.boards
                } else {
                    old(self)@.boards.insert(
                        b@.board,
                        BoardEntry {
                            title: b@.title,
                            description: b@.description,
                            policy: b@.policy,
                            created_ms,
                            claim: id@,
                        },
                    )
                },
                ..old(self)@
            }),
    {
        // The first claim (smallest time, then smallest id) wins the name and sets its parameters.
        let loses: bool = match self.boards.get(&b.board) {
            Some(held) => !stamp::precedes(created_ms, id, held.created_ms, &held.claim),
            None => false,
        };
        if loses {
            return;
        }
        let rec = BoardRec {
            title: b.title.clone(),
            description: b.description.clone(),
            policy: b.policy,
            created_ms,
            claim: id.to_owned(),
        };
        self.boards.insert(&b.board, rec);
        assert(self@.boards =~= old(self)@.boards.insert(b@.board, rec@));
    }

    fn apply_ban_vote(&mut self, id: &str, voter: &str, b: &BanVote, created_ms: u64)
        requires
            old(self).stored(),
            old(self).room(),
        ensures
            final(self).stored(),
            final(self)@ == (StateModel {
                ban_votes: old(self)@.ban_votes.insert(
                    b@.board,
                    ballot::ballots_step(
                        readmodel::ballots_at(old(self)@.ban_votes, b@.board),
                        b@.target,
                        voter@,
                        Mark { value: readmodel::yes_no(b@.support), at: created_ms, id: id@ },
                    ),
                ),
                ..old(self)@
            }),
    {
        let mark: i8 = if b.support {
            1
        } else {
            -1
        };
        let ghost after = ballot::ballots_step(
            readmodel::ballots_at(old(self)@.ban_votes, b@.board),
            b@.target,
            voter@,
            Mark { value: mark, at: created_ms, id: id@ },
        );
        if !self.ban_votes.contains(&b.board) {
            let mut fresh = Ledger::new();
            fresh.cast(&b.target, voter, mark, created_ms, id);
            self.ban_votes.insert(&b.board, fresh);
        } else if let Some(ledger) = self.ban_votes.get_mut(&b.board) {
            ledger.cast(&b.target, voter, mark, created_ms, id);
        }
        assert(self@.ban_votes =~= old(self)@.ban_votes.insert(b@.board, after));
    }

    fn apply_proposal(&mut self, id: &str, author: &str, created_ms: u64, p: &PolicyProposal)
        requires
            old(self).stored(),
        ensures
            final(self).stored(),
            final(self)@ == (StateModel {
                proposals: old(self)@.proposals.insert(
                    id@,
                    ProposalEntry { author: author@, created_ms, proposal: p@ },
                ),
                ..old(self)@
            }),
    {
        self.proposals.insert(id, StoredProposal { author: author.to_owned(), created_ms, proposal: p.clone() });
        assert(self@.proposals =~= old(self)@.proposals.insert(
            id@,
            ProposalEntry { author: author@, created_ms, proposal: p@ },
        ));
    }

    fn apply_policy_vote(&mut self, id: &str, voter: &str, v: &PolicyVote, created_ms: u64)
        requires
            old(self).stored(),
            old(self).room(),
        ensures
            final(self).stored(),
            final(self)@ == (StateModel {
                policy_votes: ballot::ballots_step(
                    old(self)@.policy_votes,
                    v@.proposal,
                    voter@,
                    Mark { value: readmodel::yes_no(v@.support), at: created_ms, id: id@ },
                ),
                ..old(self)@
            }),
    {
        let mark: i8 = if v.support {
            1
        } else {
            -1
        };
        self.policy_votes.cast(&v.proposal, voter, mark, created_ms, id);
    }
}

/// Add a segment to one author's parts.
fn add_segment(by: &mut Table<StoredParts>, author: &str, s: &StreamSegment, at: u64, id: &str)
    requires
        parts_sound(*old(by)),
    ensures
        parts_sound(*final(by)),
        parts_in(final(by)@) == parts_in(old(by)@).insert(
            author@,
            readmodel::extended(
                readmodel::parts_by(parts_in(old(by)@), author@),
                SegmentEntry { segment: s@, at, id: id@ },
            ),
        ),
{
    let ghost after = readmodel::extended(
        readmodel::parts_by(parts_in(old(by)@), author@),
        SegmentEntry { segment: s@, at, id: id@ },
    );
    if !by.contains(author) {
        let mut parts = StoredParts::new();
        parts.extend(s, at, id);
        by.insert(author, parts);
    } else if let Some(parts) = by.get_mut(author) {
        parts.extend(s, at, id);
    }
    assert(parts_in(by@) =~= parts_in(old(by)@).insert(author@, after));
}

/// End a stream in one author's parts.
fn add_end(by: &mut Table<StoredParts>, author: &str, cid: &Option<String>, at: u64, id: &str)
    requires
        parts_sound(*old(by)),
    ensures
        parts_sound(*final(by)),
        parts_in(final(by)@) == parts_in(old(by)@).insert(
            author@,
            readmodel::concluded(
                readmodel::parts_by(parts_in(old(by)@), author@),
                readmodel::recording_of(cid.deep_view(), at, id@),
            ),
        ),
{
    let ghost after = readmodel::concluded(
        readmodel::parts_by(parts_in(old(by)@), author@),
        readmodel::recording_of(cid.deep_view(), at, id@),
    );
    if !by.contains(author) {
        let mut parts = StoredParts::new();
        parts.conclude(cid, at, id);
        by.insert(author, parts);
    } else if let Some(parts) = by.get_mut(author) {
        parts.conclude(cid, at, id);
    }
    assert(parts_in(by@) =~= parts_in(old(by)@).insert(author@, after));
}

/// The lists of a table, as text.
spec fn lists(table: Map<Seq<char>, Vec<String>>) -> Map<Seq<char>, Seq<Seq<char>>> {
    table.map_values(|v: Vec<String>| v.deep_view())
}

/// Add `id` to the end of the list under `key`.
fn push_under(table: &mut Table<Vec<String>>, key: &str, id: &str)
    requires
        old(table).wf(),
    ensures
        final(table).wf(),
        lists(final(table)@) == lists(old(table)@).insert(key@, readmodel::list_at(lists(old(table)@), key@).push(id@)),
{
    let ghost before = readmodel::list_at(lists(old(table)@), key@);
    if !table.contains(key) {
        let mut list: Vec<String> = Vec::new();
        list.push(id.to_owned());
        assert(list.deep_view() =~= before.push(id@));
        table.insert(key, list);
    } else if let Some(list) = table.get_mut(key) {
        list.push(id.to_owned());
        assert(list.deep_view() =~= before.push(id@));
    }
    assert(lists(table@) =~= lists(old(table)@).insert(key@, before.push(id@)));
}

} // verus!
