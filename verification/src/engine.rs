//! The engine: what each operation writes, whom it admits, and what it reads.
//!
//! Every front end drives the same decisions. A write becomes a [`WritePlan`]: the body to publish, the
//! objects to place and on how many peers. Time, trust lookups and the network come from outside.
use crate::double;
use crate::double::Double;
use crate::feed;
use crate::feed::{PostView, PostViewModel, SortBy};
use crate::governance;
use crate::model::{
    BanVote, BanVoteModel, BoardCreate, BoardCreateModel, Body, BodyModel, DeviceLink, DeviceLinkModel, Document,
    DocumentModel, Follow, FollowModel, Media, MediaModel, PolicyProposal, PolicyProposalModel, PolicyVote,
    PolicyVoteModel, Post, PostModel, ProfileModel, StreamEnd, StreamEndModel, StreamSegment, StreamSegmentModel,
    StreamStart, StreamStartModel, Vote, VoteModel,
};
use crate::order;
use crate::people;
use crate::proto;
use crate::proto::{
    BanVoteReq, BoardPutReq, DeviceLinkReq, DocPutReq, FeedReq, FollowReq, MediaPutReq, PolicyProposeReq,
    PolicyVoteReq, PostCreateReq, ProfilePutReq, StreamAppendReq, StreamEndReq, StreamStartReq, VoteReq,
};
use crate::readmodel;
use crate::readmodel::StateModel;
use crate::record;
use crate::record::{Record, RecordError, RecordModel};
use crate::replicate;
use crate::replicate::DEFAULT_REPLICAS;
use crate::state::{State, MAX_RECORDS};
use crate::store;
use crate::store::Store;
use crate::table::Table;
use crate::text;
use vstd::prelude::*;

verus! {

/// The most posts that one listing returns.
pub const MAX_LIMIT: usize = 500;

/// A write about to happen.
pub struct WritePlan {
    /// What to publish.
    pub body: Body,
    /// Objects whose bytes to place on nearby nodes.
    pub object_cids: Vec<String>,
    /// On how many of them.
    pub replicas: usize,
}

impl WritePlan {
    /// The plan publishes `body` and places nothing.
    pub open spec fn only_publishes(self, body: BodyModel) -> bool {
        self.body@ == body && self.object_cids.deep_view() == Seq::<Seq<char>>::empty() && self.replicas == 0
    }

    /// The plan publishes `body` and places the object `cid` on `replicas` nodes.
    pub open spec fn publishes_and_places(self, body: BodyModel, cid: Seq<char>, replicas: int) -> bool {
        self.body@ == body && self.object_cids.deep_view() == seq![cid] && self.replicas == replicas
    }
}

/// A plan that places nothing.
fn publish(body: Body) -> (plan: WritePlan)
    ensures
        plan.only_publishes(body@),
{
    let object_cids: Vec<String> = Vec::new();
    assert(object_cids.deep_view() =~= Seq::<Seq<char>>::empty());
    WritePlan { body, object_cids, replicas: 0 }
}

/// A plan that places one object.
fn publish_with(body: Body, cid: String, replicas: usize) -> (plan: WritePlan)
    ensures
        plan.publishes_and_places(body@, cid@, replicas as int),
{
    let mut object_cids: Vec<String> = Vec::new();
    object_cids.push(cid);
    assert(object_cids.deep_view() =~= seq![cid@]);
    WritePlan { body, object_cids, replicas }
}

/// The plan carries the request out: set a profile.
pub open spec fn profile_put_plan(req: ProfilePutReq, plan: WritePlan) -> bool {
    plan.only_publishes(
        BodyModel::Profile(
            (ProfileModel {
                handle: req.handle.deep_view(),
                display_name: req.display_name@,
                bio: req.bio@,
                avatar: req.avatar.deep_view(),
                links: req.links.deep_view(),
                devices: req.devices.deep_view(),
            }),
        ),
    )
}

/// Set a profile.
pub fn profile_put(req: ProfilePutReq) -> (plan: WritePlan)
    ensures
        profile_put_plan(req, plan),
{
    publish(proto::profile_body(req))
}

/// The replicas that a request for `requested` of them gets.
pub open spec fn wanted_replicas(requested: u32) -> int {
    if requested == 0 {
        DEFAULT_REPLICAS as int
    } else {
        requested as int
    }
}

/// The plan carries the request out: register media and place its bytes.
pub open spec fn media_put_plan(req: MediaPutReq, plan: WritePlan) -> bool {
    plan.publishes_and_places(
        BodyModel::Media(
            (MediaModel {
                kind: req.kind,
                object_cid: req.object_cid@,
                mime: req.mime@,
                size: req.size,
                title: req.title@,
                duration_ms: req.duration_ms,
                width: req.width,
                height: req.height,
                thumbnail: req.thumbnail.deep_view(),
                extra: req.extra@,
            }),
        ),
        req.object_cid@,
        wanted_replicas(req.replicas),
    )
}

/// Register media and place its bytes.
pub fn media_put(req: MediaPutReq) -> (plan: WritePlan)
    ensures
        media_put_plan(req, plan),
{
    let cid = req.object_cid.clone();
    let replicas: usize = replicate::replica_count(req.replicas);
    publish_with(
        Body::Media(
            Media {
                kind: req.kind,
                object_cid: req.object_cid,
                mime: req.mime,
                size: req.size,
                title: req.title,
                duration_ms: req.duration_ms,
                width: req.width,
                height: req.height,
                thumbnail: req.thumbnail,
                extra: req.extra,
            },
        ),
        cid,
        replicas,
    )
}

/// The plan carries the request out: create a post or comment.
pub open spec fn post_create_plan(req: PostCreateReq, plan: WritePlan) -> bool {
    plan.only_publishes(
        BodyModel::Post(
            (PostModel {
                board: req.board@,
                parent: req.parent.deep_view(),
                title: req.title.deep_view(),
                body: req.body@,
                media: req.media.deep_view(),
            }),
        ),
    )
}

/// Create a post or comment.
pub fn post_create(req: PostCreateReq) -> (plan: WritePlan)
    ensures
        post_create_plan(req, plan),
{
    publish(
        Body::Post(
            Post { board: req.board, parent: req.parent, title: req.title, body: req.body, media: req.media },
        ),
    )
}

/// The plan carries the request out: vote on a target.
pub open spec fn vote_plan(req: VoteReq, plan: WritePlan) -> bool {
    plan.only_publishes(BodyModel::Vote((VoteModel { target: req.target@, value: req.value })))
}

/// Vote on a target.
pub fn vote(req: VoteReq) -> (plan: WritePlan)
    ensures
        vote_plan(req, plan),
{
    publish(Body::Vote(Vote { target: req.target, value: req.value }))
}

/// The plan carries the request out: follow or unfollow a user.
pub open spec fn follow_plan(req: FollowReq, plan: WritePlan) -> bool {
    plan.only_publishes(BodyModel::Follow((FollowModel { followee: req.followee@, active: req.active })))
}

/// Follow or unfollow a user.
pub fn follow(req: FollowReq) -> (plan: WritePlan)
    ensures
        follow_plan(req, plan),
{
    publish(Body::Follow(Follow { followee: req.followee, active: req.active }))
}

/// The plan carries the request out: begin a live stream.
pub open spec fn stream_start_plan(req: StreamStartReq, plan: WritePlan) -> bool {
    plan.only_publishes(
        BodyModel::StreamStart(
            (StreamStartModel {
                title: req.title@,
                kind: req.kind,
                board: req.board.deep_view(),
                thumbnail: req.thumbnail.deep_view(),
                extra: req.extra@,
            }),
        ),
    )
}

/// Begin a live stream.
pub fn stream_start(req: StreamStartReq) -> (plan: WritePlan)
    ensures
        stream_start_plan(req, plan),
{
    publish(
        Body::StreamStart(
            StreamStart {
                title: req.title,
                kind: req.kind,
                board: req.board,
                thumbnail: req.thumbnail,
                extra: req.extra,
            },
        ),
    )
}

/// The plan carries the request out: append a segment to a live stream and place its bytes.
pub open spec fn stream_append_plan(req: StreamAppendReq, plan: WritePlan) -> bool {
    plan.publishes_and_places(
        BodyModel::StreamSegment(
            (StreamSegmentModel {
                stream: req.stream@,
                seq: req.seq,
                object_cid: req.object_cid@,
                duration_ms: req.duration_ms,
            }),
        ),
        req.object_cid@,
        wanted_replicas(req.replicas),
    )
}

/// Append a segment to a live stream and place its bytes.
pub fn stream_append(req: StreamAppendReq) -> (plan: WritePlan)
    ensures
        stream_append_plan(req, plan),
{
    let cid = req.object_cid.clone();
    let replicas: usize = replicate::replica_count(req.replicas);
    publish_with(
        Body::StreamSegment(
            StreamSegment {
                stream: req.stream,
                seq: req.seq,
                object_cid: req.object_cid,
                duration_ms: req.duration_ms,
            },
        ),
        cid,
        replicas,
    )
}

/// The plan carries the request out: end a live stream; a recording's bytes are placed.
pub open spec fn stream_end_plan(req: StreamEndReq, plan: WritePlan) -> bool {
    &&& plan.body@ == BodyModel::StreamEnd(
        (StreamEndModel { stream: req.stream@, recording_cid: req.recording_cid.deep_view() }),
    )
    &&& plan.object_cids.deep_view() == (match req.recording_cid {
        Some(cid) => seq![cid@],
        None => Seq::<Seq<char>>::empty(),
    })
    &&& plan.replicas == DEFAULT_REPLICAS
}

/// End a live stream; a recording's bytes are placed.
pub fn stream_end(req: StreamEndReq) -> (plan: WritePlan)
    ensures
        stream_end_plan(req, plan),
{
    let mut object_cids: Vec<String> = Vec::new();
    if let Some(cid) = &req.recording_cid {
        object_cids.push(cid.clone());
    }
    assert(object_cids.deep_view() =~= (match req.recording_cid {
        Some(cid) => seq![cid@],
        None => Seq::<Seq<char>>::empty(),
    }));
    WritePlan {
        body: Body::StreamEnd(StreamEnd { stream: req.stream, recording_cid: req.recording_cid }),
        object_cids,
        replicas: DEFAULT_REPLICAS,
    }
}

/// The plan carries the request out: register a board.
pub open spec fn board_put_plan(req: BoardPutReq, plan: WritePlan) -> bool {
    plan.only_publishes(
        BodyModel::BoardCreate(
            (BoardCreateModel {
                board: req.board@,
                title: req.title@,
                description: req.description@,
                policy: req.policy,
            }),
        ),
    )
}

/// Register a board.
pub fn board_put(req: BoardPutReq) -> (plan: WritePlan)
    ensures
        board_put_plan(req, plan),
{
    publish(
        Body::BoardCreate(
            BoardCreate { board: req.board, title: req.title, description: req.description, policy: req.policy },
        ),
    )
}

/// The plan carries the request out: vote on banning a user from a board.
pub open spec fn ban_vote_plan(req: BanVoteReq, plan: WritePlan) -> bool {
    plan.only_publishes(
        BodyModel::BanVote(
            (BanVoteModel {
                board: req.board@,
                target: req.target@,
                support: req.support,
                reason: req.reason@,
            }),
        ),
    )
}

/// Vote on banning a user from a board.
pub fn ban_vote(req: BanVoteReq) -> (plan: WritePlan)
    ensures
        ban_vote_plan(req, plan),
{
    publish(
        Body::BanVote(BanVote { board: req.board, target: req.target, support: req.support, reason: req.reason }),
    )
}

/// The plan carries the request out: propose a policy.
pub open spec fn policy_propose_plan(req: PolicyProposeReq, plan: WritePlan) -> bool {
    plan.only_publishes(
        BodyModel::PolicyProposal(
            (PolicyProposalModel { board: req.board.deep_view(), title: req.title@, body: req.body@ }),
        ),
    )
}

/// Propose a policy.
pub fn policy_propose(req: PolicyProposeReq) -> (plan: WritePlan)
    ensures
        policy_propose_plan(req, plan),
{
    publish(Body::PolicyProposal(PolicyProposal { board: req.board, title: req.title, body: req.body }))
}

/// The plan carries the request out: vote on a proposal.
pub open spec fn policy_vote_plan(req: PolicyVoteReq, plan: WritePlan) -> bool {
    plan.only_publishes(
        BodyModel::PolicyVote((PolicyVoteModel { proposal: req.proposal@, support: req.support })),
    )
}

/// Vote on a proposal.
pub fn policy_vote(req: PolicyVoteReq) -> (plan: WritePlan)
    ensures
        policy_vote_plan(req, plan),
{
    publish(Body::PolicyVote(PolicyVote { proposal: req.proposal, support: req.support }))
}

/// The plan carries the request out: link a device to an owner, or unlink it.
pub open spec fn device_link_plan(req: DeviceLinkReq, plan: WritePlan) -> bool {
    plan.only_publishes(BodyModel::DeviceLink((DeviceLinkModel { owner: req.owner@, active: req.active })))
}

/// Link a device to an owner, or unlink it.
pub fn device_link(req: DeviceLinkReq) -> (plan: WritePlan)
    ensures
        device_link_plan(req, plan),
{
    publish(Body::DeviceLink(DeviceLink { owner: req.owner, active: req.active }))
}

/// The plan carries the request out: create a document or publish a new version of one; the bytes of a file payload are placed.
pub open spec fn document_put_plan(req: DocPutReq, plan: WritePlan) -> bool {
    &&& plan.body@ == BodyModel::Document(
        (DocumentModel {
            title: req.title@,
            body: req.body@,
            file: req.file.deep_view(),
            refs: req.refs.deep_view(),
            board: req.board.deep_view(),
            series: req.series.deep_view(),
            prev: req.prev.deep_view(),
        }),
    )
    &&& plan.object_cids.deep_view() == (match req.file {
        Some(f) => seq![f.object_cid@],
        None => Seq::<Seq<char>>::empty(),
    })
    &&& plan.replicas == (if req.file is Some {
        DEFAULT_REPLICAS as int
    } else {
        0
    })
}

/// Create a document or publish a new version of one; the bytes of a file payload are placed.
pub fn document_put(req: DocPutReq) -> (plan: WritePlan)
    ensures
        document_put_plan(req, plan),
{
    let mut object_cids: Vec<String> = Vec::new();
    if let Some(f) = &req.file {
        object_cids.push(f.object_cid.clone());
    }
    let replicas: usize = if object_cids.len() == 0 {
        0
    } else {
        DEFAULT_REPLICAS
    };
    assert(object_cids.deep_view() =~= (match req.file {
        Some(f) => seq![f.object_cid@],
        None => Seq::<Seq<char>>::empty(),
    }));
    WritePlan {
        body: Body::Document(
            Document {
                title: req.title,
                body: req.body,
                file: req.file,
                refs: req.refs,
                board: req.board,
                series: req.series,
                prev: req.prev,
            },
        ),
        object_cids,
        replicas,
    }
}

// ----- admission -----

/// Whether an author may write.
pub enum Admission {
    /// Nothing stands in the way.
    Open,
    /// The author must have at least this much trust.
    NeedsTrust { floor: Double },
    /// The community has banned the author; `reason` says so.
    Banned { reason: String },
}

/// The words in which a banned author is refused.
pub open spec fn ban_notice(who: Seq<char>, board: Seq<char>) -> Seq<char> {
    "the community has banned "@ + who + " from board '"@ + board + "'"@
}

/// Who is banned from a board is refused; who is not must clear the board's trust floor, if it has one.
pub open spec fn admission_is(
    m: StateModel,
    who: Seq<char>,
    board: Seq<char>,
    floor: Double,
    admission: Admission,
) -> bool {
    if governance::banned_raw(m, board, who) {
        admission matches Admission::Banned { reason } && reason@ == ban_notice(who, board)
    } else if floor.at_most_zero() {
        admission is Open
    } else {
        admission matches Admission::NeedsTrust { floor: f } && f == floor
    }
}

/// A vote on a post is held to its board's vote rules; any other target is voted on freely.
pub open spec fn vote_admission_is(m: StateModel, who: Seq<char>, target: Seq<char>, admission: Admission) -> bool {
    if m.posts.contains_key(target) {
        let board = m.posts[target].post.board;
        admission_is(m, who, board, governance::policy_of(m, board).min_trust_to_vote, admission)
    } else {
        admission is Open
    }
}

/// A document that declares a board is held to the board's post rules.
pub open spec fn publish_admission_is(
    m: StateModel,
    who: Seq<char>,
    board: Option<Seq<char>>,
    admission: Admission,
) -> bool {
    match board {
        Some(b) => admission_is(m, who, b, governance::policy_of(m, b).min_trust_to_post, admission),
        None => admission is Open,
    }
}

/// An author with this trust clears the floor: the trust is not less.
pub open spec fn clears(trust: Double, floor: Double) -> bool {
    !trust.less(floor)
}

/// An author with this trust clears the floor.
pub fn clears_floor(trust: Double, floor: Double) -> (yes: bool)
    ensures
        yes == clears(trust, floor),
{
    !trust.is_less(floor)
}

impl State {
    /// Reject a writer who has been community-banned from `board`, and tell the trust floor for others.
    fn screen(&self, who: &str, board: &str, floor: Double) -> (admission: Admission)
        requires
            self.wf(),
        ensures
            admission_is(self@, who@, board@, floor, admission),
    {
        if self.is_banned_raw(board, who) {
            let mut reason = "the community has banned ".to_owned();
            reason.append(who);
            reason.append(" from board '");
            reason.append(board);
            reason.append("'");
            return Admission::Banned { reason };
        }
        if floor.is_at_most_zero() {
            Admission::Open
        } else {
            Admission::NeedsTrust { floor }
        }
    }

    /// May `author` post or comment in `board`?
    pub fn may_post(&self, author: &str, board: &str) -> (admission: Admission)
        requires
            self.wf(),
        ensures
            admission_is(
                self@,
                author@,
                board@,
                governance::policy_of(self@, board@).min_trust_to_post,
                admission,
            ),
    {
        self.screen(author, board, self.board_policy(board).min_trust_to_post)
    }

    /// May `author` vote on `target`? Targets that are no posts are voted on freely.
    pub fn may_vote(&self, author: &str, target: &str) -> (admission: Admission)
        requires
            self.wf(),
        ensures
            vote_admission_is(self@, author@, target@, admission),
    {
        match self.post_table().get(target) {
            Some(sp) => self.screen(author, &sp.post.board, self.board_policy(&sp.post.board).min_trust_to_vote),
            None => Admission::Open,
        }
    }

    /// May `author` vote on bans in `board`?
    pub fn may_vote_on_bans(&self, author: &str, board: &str) -> (admission: Admission)
        requires
            self.wf(),
        ensures
            admission_is(
                self@,
                author@,
                board@,
                governance::policy_of(self@, board@).min_trust_to_vote,
                admission,
            ),
    {
        self.screen(author, board, self.board_policy(board).min_trust_to_vote)
    }

    /// May `author` publish a document? One that declares a board is held to the board's post rules.
    pub fn may_publish(&self, author: &str, board: &Option<String>) -> (admission: Admission)
        requires
            self.wf(),
        ensures
            publish_admission_is(self@, author@, board.deep_view(), admission),
    {
        match board {
            Some(b) => self.may_post(author, b),
            None => Admission::Open,
        }
    }
}

/// A banned author can neither post, vote nor vote on bans in the board, whatever the trust floors.
pub proof fn law_banned_authors_are_refused(m: StateModel, who: Seq<char>, board: Seq<char>, floor: Double, a: Admission)
    requires
        governance::banned_raw(m, board, who),
        admission_is(m, who, board, floor, a),
    ensures
        a is Banned,
{
}

// ----- writing -----

/// Build a record and fold it in. The author must be a NodeId; the record is returned for broadcasting.
pub fn write(store: &mut Store, author: &str, now_ms: u64, body: Body) -> (outcome: Result<Record, RecordError>)
    requires
        old(store).wf(),
        old(store)@.seen.len() < MAX_RECORDS,
    ensures
        final(store).wf(),
        ({
            let id = record::content_id(crate::canonical::canonical(author@, now_ms, body@));
            let r = RecordModel { id, author: author@, created_ms: now_ms, body: body@, sig: Seq::empty() };
            if r.author_is_node() {
                &&& outcome matches Ok(w) && w@ == r
                &&& final(store)@ == readmodel::fold(old(store)@, r)
            } else {
                &&& outcome matches Err(RecordError::BadAuthor)
                &&& final(store)@ == old(store)@
            }
        }),
{
    match Record::new(author, now_ms, body) {
        Ok(rec) => match store.ingest(&rec) {
            Ok(_) => Ok(rec),
            Err(e) => Err(e),
        },
        Err(e) => Err(e),
    }
}

// ----- reading -----

/// A limit, up to the maximum.
pub open spec fn capped(limit: int) -> int {
    if limit <= MAX_LIMIT {
        limit
    } else {
        MAX_LIMIT as int
    }
}

/// A listing's limit: what was asked for, up to the maximum.
pub fn capped_limit(limit: usize) -> (capped: usize)
    ensures
        capped == self::capped(limit as int),
{
    if limit <= MAX_LIMIT {
        limit
    } else {
        MAX_LIMIT
    }
}

/// The text, or nothing.
fn text_or_empty(o: &Option<String>) -> (s: String)
    ensures
        s@ == (match o {
            Some(t) => t@,
            None => Seq::<char>::empty(),
        }),
{
    match o {
        Some(t) => t.clone(),
        None => String::new(),
    }
}

/// The posts that a feed request is answered with.
pub open spec fn feed_is(m: StateModel, req: FeedReq, scores: Map<Seq<char>, i64>, posts: Seq<PostViewModel>) -> bool {
    let sort = feed::sort_named(req.sort@.map_values(|c: char| feed::ascii_lower(c)));
    let limit = capped(req.limit as int);
    if req.scope@ == "board"@ {
        let board = match req.board {
            Some(b) => b@,
            None => Seq::<char>::empty(),
        };
        posts == feed::first(
            feed::ranked_views(feed::visible(m, readmodel::list_at(m.board_threads, board)), sort, scores),
            limit,
        )
    } else if req.scope@ == "home"@ {
        let viewer = match req.viewer {
            Some(v) => v@,
            None => Seq::<char>::empty(),
        };
        feed::feed_of(m, feed::home_roots(m, viewer), sort, scores, limit, posts)
    } else {
        feed::feed_of(m, feed::all_roots(m), sort, scores, limit, posts)
    }
}

/// A board, home or cross-board feed, ranked by any feed algorithm.
pub fn feed(state: &State, req: &FeedReq, scores: &Table<i64>) -> (views: Vec<PostView>)
    requires
        state.wf(),
        scores.wf(),
    ensures
        feed_is(state@, *req, scores@, views.deep_view()),
{
    let sort = SortBy::parse(&req.sort);
    let limit: usize = capped_limit(req.limit);
    if text::same_text(&req.scope, "board") {
        state.threads(&text_or_empty(&req.board), sort, limit, scores)
    } else if text::same_text(&req.scope, "home") {
        state.home_feed(&text_or_empty(&req.viewer), sort, limit, scores)
    } else {
        state.all_feed(sort, limit, scores)
    }
}

/// The devices declared so far, each once, behind the node itself.
pub open spec fn device_list(node: Seq<char>, declared: Seq<Seq<char>>) -> Seq<Seq<char>>
    decreases declared.len(),
{
    if declared.len() == 0 {
        seq![node]
    } else {
        let before = device_list(node, declared.drop_last());
        if before.contains(declared.last()) {
            before
        } else {
            before.push(declared.last())
        }
    }
}

/// The device set whose compute is rolled up for a profile: the node itself, then every other device it
/// declares, each once.
pub fn device_set(node_id: &str, declared: Option<&Vec<String>>) -> (devices: Vec<String>)
    ensures
        devices.deep_view() == device_list(
            node_id@,
            match declared {
                Some(d) => d.deep_view(),
                None => Seq::empty(),
            },
        ),
{
    let mut devices: Vec<String> = Vec::new();
    devices.push(node_id.to_owned());
    assert(devices.deep_view() =~= seq![node_id@]);
    if let Some(list) = declared {
        let ghost all = list.deep_view();
        let mut i: usize = 0;
        assert(all.take(0) =~= Seq::empty());
        while i < list.len()
            invariant
                i <= list@.len(),
                all == list.deep_view(),
                devices.deep_view() == device_list(node_id@, all.take(i as int)),
            decreases list.len() - i,
        {
            let ghost before = devices.deep_view();
            proof {
                assert(all.take(i + 1).drop_last() =~= all.take(i as int));
                assert(all.take(i + 1).last() == list@[i as int]@);
            }
            if !text::contains(&devices, &list[i]) {
                devices.push(list[i].clone());
                assert(devices.deep_view() =~= before.push(list@[i as int]@));
            }
            i = i + 1;
        }
        assert(all.take(i as int) =~= all);
    }
    devices
}

/// The device list starts with the node itself, names no device twice, and holds exactly the node and
/// the declared devices.
pub proof fn law_device_set(node: Seq<char>, declared: Seq<Seq<char>>)
    ensures
        device_list(node, declared).len() >= 1,
        device_list(node, declared)[0] == node,
        device_list(node, declared).no_duplicates(),
        forall|d: Seq<char>| #[trigger]
            device_list(node, declared).contains(d) <==> d == node || declared.contains(d),
    decreases declared.len(),
{
    let after = device_list(node, declared);
    if declared.len() == 0 {
        assert(after[0] == node);
    } else {
        let shorter = declared.drop_last();
        let last = declared.last();
        law_device_set(node, shorter);
        let before = device_list(node, shorter);
        assert forall|d: Seq<char>| #[trigger] after.contains(d) <==> d == node || declared.contains(d) by {
            assert(before.contains(d) <==> d == node || shorter.contains(d));
            if before.contains(d) {
                let i = choose|i: int| 0 <= i < before.len() && before[i] == d;
                assert(after[i] == d);
            }
            if after.contains(d) {
                let i = choose|i: int| 0 <= i < after.len() && after[i] == d;
                if i < before.len() {
                    assert(before[i] == d);
                }
            }
            if declared.contains(d) {
                let i = choose|i: int| 0 <= i < declared.len() && declared[i] == d;
                if i < shorter.len() {
                    assert(shorter[i] == d);
                }
            }
            if shorter.contains(d) {
                let i = choose|i: int| 0 <= i < shorter.len() && shorter[i] == d;
                assert(declared[i] == d);
            }
            assert(declared[declared.len() - 1] == last);
            if !before.contains(last) {
                assert(after[after.len() - 1] == last);
            }
        }
    }
}

/// A profile borrows no device: every device whose compute is rolled up for a node is the node itself,
/// or one that the node declares and that says of itself, last of all, that it belongs to the node.
pub proof fn law_no_borrowed_devices(m: StateModel, node: Seq<char>, device: Seq<char>)
    requires
        device_list(node, people::bound_devices(m, node)).contains(device),
    ensures
        device == node || (people::declared_devices(m, node).contains(device) && people::owner_of(m, device) == Some(node)),
{
    let declared = people::declared_devices(m, node);
    let keep = people::points_at(m, node);
    let bound = people::bound_devices(m, node);
    law_device_set(node, bound);
    order::lemma_filtered(declared, keep);
    if device != node {
        assert(bound.contains(device));
        assert(bound.to_set().contains(device));
        assert(declared.to_set().filter(keep).contains(device));
    }
}

/// A floor is cleared by trust that equals it or is above it: so whole numbers clear one another as numbers do,
/// every number clears itself, and whoever clears a floor clears every lower one.
pub proof fn law_floors_are_cleared_from_above(trust: Double, floor: Double, lower: Double, a: int, b: int)
    requires
        -0x20_0000_0000_0000 < a < 0x20_0000_0000_0000,
        -0x20_0000_0000_0000 < b < 0x20_0000_0000_0000,
    ensures
        clears(double::whole(a), double::whole(b)) <==> a >= b,
        clears(trust, trust),
        !trust.is_nan() && !floor.is_nan() && clears(trust, floor) && lower.less(floor) ==> clears(trust, lower),
{
    double::law_whole_numbers_compare_as_numbers(a, b);
}

} // verus!
