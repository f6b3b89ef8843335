//! Dispatch: what each request leads to, given what the node knows.
//!
//! A request is answered from the read-model right away where that is all it takes. Where it takes more,
//! the step says what: a record to publish, a reputation to fetch, a replicated record to take in.
use crate::diff::DiffLine;
use crate::documents;
use crate::documents::DocumentView;
use crate::engine;
use crate::engine::{Admission, WritePlan};
use crate::feed;
use crate::feed::{PostView, SortBy};
use crate::governance;
use crate::governance::{BanStanding, BoardView, ProposalView};
use crate::karma::SocialKarma;
use crate::model::{BoardPolicy, Media};
use crate::order;
use crate::people;
use crate::people::{BanBallot, ProfileView};
use crate::proto::{
    BacklinksReq, BanStandingReq, BanVoteReq, BoardGetReq, BoardPutReq, CommentsReq, DeviceLinkReq, DocDiffReq,
    DocGetReq, DocKeyReq, DocPutReq, DocsByReq, Envelope, FeedReq, FollowReq,
    KarmaReq, MediaGetReq, MediaPutReq, PolicyProposeReq, PolicyVoteReq, PostCreateReq, PostGetReq, ProfileGetReq,
    ProfilePutReq, ProposalGetReq, ProposalsReq, ReplicateReq, StreamAppendReq, StreamEndReq, StreamGetReq,
    StreamStartReq, ThreadsReq, VoteReq,
};
use crate::readmodel;
use crate::readmodel::StateModel;
use crate::service;
use crate::service::Route;
use crate::state::State;
use crate::streams;
use crate::streams::StreamView;
use crate::table::Table;
use vstd::prelude::*;

verus! {

/// A request, read from the body of a message on the topic of its operation.
pub enum Request {
    ProfilePut(ProfilePutReq),
    ProfileGet(ProfileGetReq),
    MediaPut(MediaPutReq),
    MediaGet(MediaGetReq),
    PostCreate(PostCreateReq),
    PostGet(PostGetReq),
    Threads(ThreadsReq),
    Comments(CommentsReq),
    Vote(VoteReq),
    Follow(FollowReq),
    Karma(KarmaReq),
    StreamStart(StreamStartReq),
    StreamAppend(StreamAppendReq),
    StreamEnd(StreamEndReq),
    StreamGet(StreamGetReq),
    StreamsLive,
    Replicate(ReplicateReq),
    BoardPut(BoardPutReq),
    BoardGet(BoardGetReq),
    Boards,
    Feed(FeedReq),
    BanVote(BanVoteReq),
    BanStanding(BanStandingReq),
    PolicyPropose(PolicyProposeReq),
    PolicyVote(PolicyVoteReq),
    Proposals(ProposalsReq),
    ProposalGet(ProposalGetReq),
    DocPut(DocPutReq),
    DocGet(DocGetReq),
    DocsBy(DocsByReq),
    DocHistory(DocKeyReq),
    DocLatest(DocKeyReq),
    DocDiff(DocDiffReq),
    Backlinks(BacklinksReq),
    DeviceLink(DeviceLinkReq),
}

/// How a write that went well is answered.
#[derive(Debug, Clone, Copy, PartialEq, Eq, Structural)]
pub enum Receipt {
    /// With the id of the record.
    Id,
    /// With success alone.
    Done,
}

/// What a request leads to.
pub enum Step {
    /// Publish a record, if its author is let in.
    Write { admission: Admission, plan: WritePlan, receipt: Receipt },
    /// Fetch the compute of these devices, then answer with the profile, the karma and the fused trust.
    Profile { profile: Option<ProfileView>, social: SocialKarma, devices: Vec<String> },
    /// Fetch the compute of these devices, then answer with the karma and the fused trust.
    Karma { social: SocialKarma, devices: Vec<String> },
    /// Answer with a media descriptor.
    Media { media: Option<Media> },
    /// Answer with a post.
    Post { post: Option<PostView> },
    /// Answer with posts.
    Posts { posts: Vec<PostView> },
    /// Answer with a stream.
    Stream { stream: Option<StreamView> },
    /// Answer with streams.
    Streams { streams: Vec<StreamView> },
    /// The segments of a stream last longer than can be told.
    TooLong,
    /// Answer with a board.
    Board { board: BoardView },
    /// Answer with boards.
    Boards { boards: Vec<BoardView> },
    /// Weigh the ballots by karma, then answer with the standing.
    Standing { standing: BanStanding, ballots: Vec<BanBallot>, policy: BoardPolicy },
    /// Answer with a proposal.
    Proposal { proposal: Option<ProposalView> },
    /// Answer with proposals.
    Proposals { proposals: Vec<ProposalView> },
    /// Answer with a version of a document.
    Document { document: Option<DocumentView> },
    /// Answer with versions of documents.
    Documents { documents: Vec<DocumentView> },
    /// Answer with the lines of a diff.
    Diff { diff: Vec<DiffLine> },
    /// Answer with URIs.
    Uris { uris: Vec<String> },
    /// Take a replicated record in.
    Replicate { req: ReplicateReq },
}

/// The operation that a request asks for.
pub open spec fn asks_for(req: Request) -> Route {
    match req {
        Request::ProfilePut(_) => Route::ProfilePut,
        Request::ProfileGet(_) => Route::ProfileGet,
        Request::MediaPut(_) => Route::MediaPut,
        Request::MediaGet(_) => Route::MediaGet,
        Request::PostCreate(_) => Route::PostCreate,
        Request::PostGet(_) => Route::PostGet,
        Request::Threads(_) => Route::Threads,
        Request::Comments(_) => Route::Comments,
        Request::Vote(_) => Route::Vote,
        Request::Follow(_) => Route::Follow,
        Request::Karma(_) => Route::Karma,
        Request::StreamStart(_) => Route::StreamStart,
        Request::StreamAppend(_) => Route::StreamAppend,
        Request::StreamEnd(_) => Route::StreamEnd,
        Request::StreamGet(_) => Route::StreamGet,
        Request::StreamsLive => Route::StreamsLive,
        Request::Replicate(_) => Route::Replicate,
        Request::BoardPut(_) => Route::BoardPut,
        Request::BoardGet(_) => Route::BoardGet,
        Request::Boards => Route::Boards,
        Request::Feed(_) => Route::Feed,
        Request::BanVote(_) => Route::Banvote,
        Request::BanStanding(_) => Route::Banstanding,
        Request::PolicyPropose(_) => Route::PolicyPropose,
        Request::PolicyVote(_) => Route::PolicyVote,
        Request::Proposals(_) => Route::Proposals,
        Request::ProposalGet(_) => Route::ProposalGet,
        Request::DocPut(_) => Route::DocPut,
        Request::DocGet(_) => Route::DocGet,
        Request::DocsBy(_) => Route::DocsBy,
        Request::DocHistory(_) => Route::DocHistory,
        Request::DocLatest(_) => Route::DocLatest,
        Request::DocDiff(_) => Route::DocDiff,
        Request::Backlinks(_) => Route::Backlinks,
        Request::DeviceLink(_) => Route::DeviceLink,
    }
}

/// A profile as the read-model has it.
pub open spec fn profile_is(m: StateModel, user: Seq<char>, p: Option<ProfileView>) -> bool {
    match p {
        Some(v) => {
            &&& m.profiles.contains_key(user)
            &&& v.node_id@ == user
            &&& v.profile@ == m.profiles[user].profile
            &&& v.updated_ms == m.profiles[user].updated_ms
        },
        None => !m.profiles.contains_key(user),
    }
}

/// The devices whose compute is rolled up for a user.
pub open spec fn devices_are(m: StateModel, user: Seq<char>, devices: Vec<String>) -> bool {
    devices.deep_view() == engine::device_list(user, people::bound_devices(m, user))
}

/// The plan is for an open write.
pub open spec fn open_write(step: Step, receipt: Receipt) -> bool {
    step matches Step::Write { admission, plan, receipt: r } && admission is Open && r == receipt
}

/// What a request by `author` leads to.
pub open spec fn step_is(
    m: StateModel,
    author: Seq<char>,
    req: Request,
    scores: Map<Seq<char>, i64>,
    step: Step,
) -> bool {
    match req {
        Request::ProfilePut(r) => open_write(step, Receipt::Id) && engine::profile_put_plan(r, step->plan),
        Request::ProfileGet(r) => step matches Step::Profile { profile, social, devices } && profile_is(
            m,
            r.node_id@,
            profile,
        ) && people::social_is(m, r.node_id@, social) && devices_are(m, r.node_id@, devices),
        Request::MediaPut(r) => open_write(step, Receipt::Id) && engine::media_put_plan(r, step->plan),
        Request::MediaGet(r) => step matches Step::Media { media } && match media {
            Some(d) => m.media.contains_key(r.media_id@) && d@ == m.media[r.media_id@].media,
            None => !m.media.contains_key(r.media_id@),
        },
        Request::PostCreate(r) => step matches Step::Write { admission, plan, receipt } && engine::admission_is(
            m,
            author,
            r.board@,
            governance::policy_of(m, r.board@).min_trust_to_post,
            admission,
        ) && engine::post_create_plan(r, plan) && receipt == Receipt::Id,
        Request::PostGet(r) => step matches Step::Post { post } && match post {
            Some(v) => m.posts.contains_key(r.id@) && v@ == feed::post_view(m, r.id@),
            None => !m.posts.contains_key(r.id@),
        },
        Request::Threads(r) => step matches Step::Posts { posts } && posts.deep_view() == feed::first(
            feed::ranked_views(
                feed::visible(m, readmodel::list_at(m.board_threads, r.board@)),
                feed::sort_named(r.sort@.map_values(|c: char| feed::ascii_lower(c))),
                scores,
            ),
            engine::capped(r.limit as int),
        ),
        Request::Comments(r) => step matches Step::Posts { posts } && posts.deep_view() == feed::comment_tree(
            m,
            r.root@,
            m.posts.dom().remove(r.root@),
            feed::sort_named(r.sort@.map_values(|c: char| feed::ascii_lower(c))),
            scores,
        ),
        Request::Vote(r) => step matches Step::Write { admission, plan, receipt } && engine::vote_admission_is(
            m,
            author,
            r.target@,
            admission,
        ) && engine::vote_plan(r, plan) && receipt == Receipt::Done,
        Request::Follow(r) => open_write(step, Receipt::Done) && engine::follow_plan(r, step->plan),
        Request::Karma(r) => step matches Step::Karma { social, devices } && people::social_is(m, r.node_id@, social)
            && devices_are(m, r.node_id@, devices),
        Request::StreamStart(r) => open_write(step, Receipt::Id) && engine::stream_start_plan(r, step->plan),
        Request::StreamAppend(r) => open_write(step, Receipt::Id) && engine::stream_append_plan(r, step->plan),
        Request::StreamEnd(r) => open_write(step, Receipt::Done) && engine::stream_end_plan(r, step->plan),
        Request::StreamGet(r) => if streams::duration_fits(m, r.id@) {
            step matches Step::Stream { stream } && match stream {
                Some(v) => streams::shows_stream(m, r.id@, v),
                None => !m.streams.contains_key(r.id@),
            }
        } else {
            step is TooLong
        },
        Request::StreamsLive => if streams::live_fit(m) {
            step matches Step::Streams { streams } && streams::lists_live(m, streams@)
        } else {
            step is TooLong
        },
        Request::Replicate(r) => step matches Step::Replicate { req } && req == r,
        Request::BoardPut(r) => open_write(step, Receipt::Id) && engine::board_put_plan(r, step->plan),
        Request::BoardGet(r) => step matches Step::Board { board } && board@ == governance::board_view(m, r.board@),
        Request::Boards => step matches Step::Boards { boards } && governance::lists_boards(m, boards@),
        Request::Feed(r) => step matches Step::Posts { posts } && engine::feed_is(m, r, scores, posts.deep_view()),
        Request::BanVote(r) => step matches Step::Write { admission, plan, receipt } && engine::admission_is(
            m,
            author,
            r.board@,
            governance::policy_of(m, r.board@).min_trust_to_vote,
            admission,
        ) && engine::ban_vote_plan(r, plan) && receipt == Receipt::Done,
        Request::BanStanding(r) => step matches Step::Standing { standing, ballots, policy } && governance::standing_is(
            m,
            r.board@,
            r.target@,
            standing,
        ) && people::weighs(m, r.board@, r.target@, ballots@) && policy == governance::policy_of(m, r.board@),
        Request::PolicyPropose(r) => open_write(step, Receipt::Id) && engine::policy_propose_plan(r, step->plan),
        Request::PolicyVote(r) => open_write(step, Receipt::Done) && engine::policy_vote_plan(r, step->plan),
        Request::Proposals(r) => step matches Step::Proposals { proposals } && governance::lists_proposals(
            m,
            r.board.deep_view(),
            proposals@,
        ),
        Request::ProposalGet(r) => step matches Step::Proposal { proposal } && match proposal {
            Some(v) => m.proposals.contains_key(r.id@) && v@ == governance::proposal_view(m, r.id@),
            None => !m.proposals.contains_key(r.id@),
        },
        Request::DocPut(r) => step matches Step::Write { admission, plan, receipt } && engine::publish_admission_is(
            m,
            author,
            r.board.deep_view(),
            admission,
        ) && engine::document_put_plan(r, plan) && receipt == Receipt::Id,
        Request::DocGet(r) => step matches Step::Document { document } && match document {
            Some(v) => m.documents.contains_key(r.id@) && v@ == documents::document_view(m, r.id@),
            None => !m.documents.contains_key(r.id@),
        },
        Request::DocsBy(r) => step matches Step::Documents { documents } && documents::shows_each(
            m,
            documents::written_by(m, r.author@),
            documents@,
        ) && order::newest_first(documents@.map_values(|v: DocumentView| (v.created_ms, v.id@))),
        Request::DocHistory(r) => step matches Step::Documents { documents } && documents::shows_each(
            m,
            documents::versions(m, r.key@),
            documents@,
        ) && documents::oldest_first(documents@),
        Request::DocLatest(r) => step matches Step::Document { document } && match document {
            Some(v) => documents::is_latest(m, r.key@, v),
            None => documents::versions(m, r.key@) == Set::<Seq<char>>::empty(),
        },
        Request::DocDiff(r) => step matches Step::Diff { diff } && diff.deep_view() == documents::document_diff_of(
            m,
            r.from@,
            r.to@,
        ),
        Request::Backlinks(r) => step matches Step::Uris { uris } && documents::lists_backlinks(
            m,
            r.id@,
            uris.deep_view(),
        ) && order::alphabetical(uris.deep_view()),
        Request::DeviceLink(r) => open_write(step, Receipt::Done) && engine::device_link_plan(r, step->plan),
    }
}

/// A write that anyone may make.
fn free(plan: WritePlan, receipt: Receipt) -> (step: Step)
    ensures
        open_write(step, receipt),
        step->plan == plan,
{
    Step::Write { admission: Admission::Open, plan, receipt }
}

/// What a request by `author` leads to.
pub fn dispatch(state: &State, author: &str, req: Request, scores: &Table<i64>) -> (step: Step)
    requires
        state.wf(),
        scores.wf(),
    ensures
        step_is(state@, author@, req, scores@, step),
{
    match req {
        Request::ProfilePut(r) => free(engine::profile_put(r), Receipt::Id),
        Request::ProfileGet(r) => Step::Profile {
            profile: state.profile(&r.node_id),
            social: state.social(&r.node_id),
            devices: engine::device_set(&r.node_id, Some(&state.linked_devices(&r.node_id))),
        },
        Request::MediaPut(r) => free(engine::media_put(r), Receipt::Id),
        Request::MediaGet(r) => Step::Media { media: state.media(&r.media_id) },
        Request::PostCreate(r) => {
            let admission = state.may_post(author, &r.board);
            Step::Write { admission, plan: engine::post_create(r), receipt: Receipt::Id }
        },
        Request::PostGet(r) => Step::Post { post: state.post(&r.id) },
        Request::Threads(r) => Step::Posts {
            posts: state.threads(&r.board, SortBy::parse(&r.sort), engine::capped_limit(r.limit), scores),
        },
        Request::Comments(r) => Step::Posts { posts: state.comments(&r.root, SortBy::parse(&r.sort), scores) },
        Request::Vote(r) => {
            let admission = state.may_vote(author, &r.target);
            Step::Write { admission, plan: engine::vote(r), receipt: Receipt::Done }
        },
        Request::Follow(r) => free(engine::follow(r), Receipt::Done),
        Request::Karma(r) => Step::Karma {
            social: state.social(&r.node_id),
            devices: engine::device_set(&r.node_id, Some(&state.linked_devices(&r.node_id))),
        },
        Request::StreamStart(r) => free(engine::stream_start(r), Receipt::Id),
        Request::StreamAppend(r) => free(engine::stream_append(r), Receipt::Id),
        Request::StreamEnd(r) => free(engine::stream_end(r), Receipt::Done),
        Request::StreamGet(r) => if state.duration_fits(&r.id) {
            Step::Stream { stream: state.stream(&r.id) }
        } else {
            Step::TooLong
        },
        Request::StreamsLive => if state.live_durations_fit() {
            Step::Streams { streams: state.live_streams() }
        } else {
            Step::TooLong
        },
        Request::Replicate(r) => Step::Replicate { req: r },
        Request::BoardPut(r) => free(engine::board_put(r), Receipt::Id),
        Request::BoardGet(r) => Step::Board { board: state.board(&r.board) },
        Request::Boards => Step::Boards { boards: state.boards() },
        Request::Feed(r) => Step::Posts { posts: engine::feed(state, &r, scores) },
        Request::BanVote(r) => {
            let admission = state.may_vote_on_bans(author, &r.board);
            Step::Write { admission, plan: engine::ban_vote(r), receipt: Receipt::Done }
        },
        Request::BanStanding(r) => Step::Standing {
            standing: state.ban_standing(&r.board, &r.target),
            ballots: state.ban_ballots(&r.board, &r.target),
            policy: state.board_policy(&r.board),
        },
        Request::PolicyPropose(r) => free(engine::policy_propose(r), Receipt::Id),
        Request::PolicyVote(r) => free(engine::policy_vote(r), Receipt::Done),
        Request::Proposals(r) => Step::Proposals {
            proposals: match &r.board {
                Some(b) => state.proposals(Some(b.as_str())),
                None => state.proposals(None),
            },
        },
        Request::ProposalGet(r) => Step::Proposal { proposal: state.proposal(&r.id) },
        Request::DocPut(r) => {
            let admission = state.may_publish(author, &r.board);
            Step::Write { admission, plan: engine::document_put(r), receipt: Receipt::Id }
        },
        Request::DocGet(r) => Step::Document { document: state.document(&r.id) },
        Request::DocsBy(r) => Step::Documents { documents: state.documents_by(&r.author) },
        Request::DocHistory(r) => Step::Documents { documents: state.document_history(&r.key) },
        Request::DocLatest(r) => Step::Document { document: state.document_latest(&r.key) },
        Request::DocDiff(r) => Step::Diff { diff: state.document_diff(&r.from, &r.to) },
        Request::Backlinks(r) => Step::Uris { uris: state.backlinks(&r.id) },
        Request::DeviceLink(r) => free(engine::device_link(r), Receipt::Done),
    }
}

/// What a message on `topic` leads to, once its body has been read or could not be: the step of its
/// request, or a refusal, which writes nothing.
pub fn answer(
    state: &State,
    author: &str,
    topic: &str,
    body: Result<Request, String>,
    scores: &Table<i64>,
) -> (outcome: Result<Step, Envelope>)
    requires
        state.wf(),
        scores.wf(),
        body matches Ok(req) ==> asks_for(req) == service::route_of(topic@),
    ensures
        match body {
            Ok(req) => outcome matches Ok(step) && step_is(state@, author@, req, scores@, step),
            Err(why) => outcome matches Err(envelope) && service::refuses(envelope, topic@, why@),
        },
{
    match body {
        Ok(req) => Ok(dispatch(state, author, req, scores)),
        Err(why) => Err(service::refusal(topic, &why)),
    }
}

/// A request leads to a write exactly where its operation publishes a record; every other request leaves
/// the read-model as it is, but for a replicated record.
pub proof fn law_only_writes_write(
    m: StateModel,
    author: Seq<char>,
    req: Request,
    scores: Map<Seq<char>, i64>,
    step: Step,
)
    requires
        step_is(m, author, req, scores, step),
    ensures
        step is Write <==> service::publishes(asks_for(req)),
        step is Replicate <==> req is Replicate,
{
}

/// Who is banned from a board is turned away from posting there, whatever the post.
pub proof fn law_banned_authors_cannot_post(
    m: StateModel,
    author: Seq<char>,
    req: PostCreateReq,
    scores: Map<Seq<char>, i64>,
    step: Step,
)
    requires
        step_is(m, author, Request::PostCreate(req), scores, step),
        governance::banned_raw(m, req.board@, author),
    ensures
        step matches Step::Write { admission, .. } && admission is Banned,
{
}

} // verus!
