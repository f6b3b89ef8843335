//! The mesh service: which operation each topic means, and how failures are answered.
//!
//! Every request comes with its authenticated sender, who is the author of any write. Every reply is an
//! [`Envelope`]; a failed call is answered with its error rather than dropped.
use crate::proto;
use crate::proto::Envelope;
use crate::text;
use vstd::prelude::*;

verus! {

/// The operation that a topic means.
#[derive(Debug, Clone, Copy, PartialEq, Eq, Structural)]
pub enum Route {
    /// Set the caller's profile.
    ProfilePut,
    /// Read a profile and its trust.
    ProfileGet,
    /// Register media.
    MediaPut,
    /// Read a media descriptor.
    MediaGet,
    /// Create a post or comment.
    PostCreate,
    /// Read a post.
    PostGet,
    /// List a board's threads.
    Threads,
    /// List a root's comments.
    Comments,
    /// Vote.
    Vote,
    /// Follow or unfollow.
    Follow,
    /// Read a reputation.
    Karma,
    /// Begin a stream.
    StreamStart,
    /// Append a segment.
    StreamAppend,
    /// End a stream.
    StreamEnd,
    /// Read a stream.
    StreamGet,
    /// List live streams.
    StreamsLive,
    /// Take in a replicated record.
    Replicate,
    /// Register a board.
    BoardPut,
    /// Read a board.
    BoardGet,
    /// List boards.
    Boards,
    /// Read a feed.
    Feed,
    /// Vote on a ban.
    Banvote,
    /// Read a ban standing.
    Banstanding,
    /// Propose a policy.
    PolicyPropose,
    /// Vote on a proposal.
    PolicyVote,
    /// List proposals.
    Proposals,
    /// Read a proposal.
    ProposalGet,
    /// Publish a document version.
    DocPut,
    /// Read a version of a document.
    DocGet,
    /// List an author's documents.
    DocsBy,
    /// Read the versions of a document.
    DocHistory,
    /// Read the latest version of a document.
    DocLatest,
    /// Compare two versions of documents.
    DocDiff,
    /// Find what refers to some content.
    Backlinks,
    /// Link a device to its owner.
    DeviceLink,
    /// No operation of this service.
    Unknown,
}

/// The operation that a topic names.
pub open spec fn route_of(topic: Seq<char>) -> Route {
    if topic == proto::T_PROFILE_PUT@ {
        Route::ProfilePut
    } else if topic == proto::T_PROFILE_GET@ {
        Route::ProfileGet
    } else if topic == proto::T_MEDIA_PUT@ {
        Route::MediaPut
    } else if topic == proto::T_MEDIA_GET@ {
        Route::MediaGet
    } else if topic == proto::T_POST_CREATE@ {
        Route::PostCreate
    } else if topic == proto::T_POST_GET@ {
        Route::PostGet
    } else if topic == proto::T_THREADS@ {
        Route::Threads
    } else if topic == proto::T_COMMENTS@ {
        Route::Comments
    } else if topic == proto::T_VOTE@ {
        Route::Vote
    } else if topic == proto::T_FOLLOW@ {
        Route::Follow
    } else if topic == proto::T_KARMA@ {
        Route::Karma
    } else if topic == proto::T_STREAM_START@ {
        Route::StreamStart
    } else if topic == proto::T_STREAM_APPEND@ {
        Route::StreamAppend
    } else if topic == proto::T_STREAM_END@ {
        Route::StreamEnd
    } else if topic == proto::T_STREAM_GET@ {
        Route::StreamGet
    } else if topic == proto::T_STREAMS_LIVE@ {
        Route::StreamsLive
    } else if topic == proto::T_REPLICATE@ {
        Route::Replicate
    } else if topic == proto::T_BOARD_PUT@ {
        Route::BoardPut
    } else if topic == proto::T_BOARD_GET@ {
        Route::BoardGet
    } else if topic == proto::T_BOARDS@ {
        Route::Boards
    } else if topic == proto::T_FEED@ {
        Route::Feed
    } else if topic == proto::T_BANVOTE@ {
        Route::Banvote
    } else if topic == proto::T_BANSTANDING@ {
        Route::Banstanding
    } else if topic == proto::T_POLICY_PROPOSE@ {
        Route::PolicyPropose
    } else if topic == proto::T_POLICY_VOTE@ {
        Route::PolicyVote
    } else if topic == proto::T_PROPOSALS@ {
        Route::Proposals
    } else if topic == proto::T_PROPOSAL_GET@ {
        Route::ProposalGet
    } else if topic == proto::T_DOC_PUT@ {
        Route::DocPut
    } else if topic == proto::T_DOC_GET@ {
        Route::DocGet
    } else if topic == proto::T_DOCS_BY@ {
        Route::DocsBy
    } else if topic == proto::T_DOC_HISTORY@ {
        Route::DocHistory
    } else if topic == proto::T_DOC_LATEST@ {
        Route::DocLatest
    } else if topic == proto::T_DOC_DIFF@ {
        Route::DocDiff
    } else if topic == proto::T_BACKLINKS@ {
        Route::Backlinks
    } else if topic == proto::T_DEVICE_LINK@ {
        Route::DeviceLink
    } else {
        Route::Unknown
    }
}

/// The operation that a topic names.
pub fn route(topic: &str) -> (r: Route)
    ensures
        r == route_of(topic@),
{
    if text::same_text(topic, proto::T_PROFILE_PUT) {
        Route::ProfilePut
    } else if text::same_text(topic, proto::T_PROFILE_GET) {
        Route::ProfileGet
    } else if text::same_text(topic, proto::T_MEDIA_PUT) {
        Route::MediaPut
    } else if text::same_text(topic, proto::T_MEDIA_GET) {
        Route::MediaGet
    } else if text::same_text(topic, proto::T_POST_CREATE) {
        Route::PostCreate
    } else if text::same_text(topic, proto::T_POST_GET) {
        Route::PostGet
    } else if text::same_text(topic, proto::T_THREADS) {
        Route::Threads
    } else if text::same_text(topic, proto::T_COMMENTS) {
        Route::Comments
    } else if text::same_text(topic, proto::T_VOTE) {
        Route::Vote
    } else if text::same_text(topic, proto::T_FOLLOW) {
        Route::Follow
    } else if text::same_text(topic, proto::T_KARMA) {
        Route::Karma
    } else if text::same_text(topic, proto::T_STREAM_START) {
        Route::StreamStart
    } else if text::same_text(topic, proto::T_STREAM_APPEND) {
        Route::StreamAppend
    } else if text::same_text(topic, proto::T_STREAM_END) {
        Route::StreamEnd
    } else if text::same_text(topic, proto::T_STREAM_GET) {
        Route::StreamGet
    } else if text::same_text(topic, proto::T_STREAMS_LIVE) {
        Route::StreamsLive
    } else if text::same_text(topic, proto::T_REPLICATE) {
        Route::Replicate
    } else if text::same_text(topic, proto::T_BOARD_PUT) {
        Route::BoardPut
    } else if text::same_text(topic, proto::T_BOARD_GET) {
        Route::BoardGet
    } else if text::same_text(topic, proto::T_BOARDS) {
        Route::Boards
    } else if text::same_text(topic, proto::T_FEED) {
        Route::Feed
    } else if text::same_text(topic, proto::T_BANVOTE) {
        Route::Banvote
    } else if text::same_text(topic, proto::T_BANSTANDING) {
        Route::Banstanding
    } else if text::same_text(topic, proto::T_POLICY_PROPOSE) {
        Route::PolicyPropose
    } else if text::same_text(topic, proto::T_POLICY_VOTE) {
        Route::PolicyVote
    } else if text::same_text(topic, proto::T_PROPOSALS) {
        Route::Proposals
    } else if text::same_text(topic, proto::T_PROPOSAL_GET) {
        Route::ProposalGet
    } else if text::same_text(topic, proto::T_DOC_PUT) {
        Route::DocPut
    } else if text::same_text(topic, proto::T_DOC_GET) {
        Route::DocGet
    } else if text::same_text(topic, proto::T_DOCS_BY) {
        Route::DocsBy
    } else if text::same_text(topic, proto::T_DOC_HISTORY) {
        Route::DocHistory
    } else if text::same_text(topic, proto::T_DOC_LATEST) {
        Route::DocLatest
    } else if text::same_text(topic, proto::T_DOC_DIFF) {
        Route::DocDiff
    } else if text::same_text(topic, proto::T_BACKLINKS) {
        Route::Backlinks
    } else if text::same_text(topic, proto::T_DEVICE_LINK) {
        Route::DeviceLink
    } else {
        Route::Unknown
    }
}

/// The operation publishes a record, authored by the sender.
pub open spec fn publishes(r: Route) -> bool {
    match r {
        Route::ProfilePut => true,
        Route::MediaPut => true,
        Route::PostCreate => true,
        Route::Vote => true,
        Route::Follow => true,
        Route::StreamStart => true,
        Route::StreamAppend => true,
        Route::StreamEnd => true,
        Route::BoardPut => true,
        Route::Banvote => true,
        Route::PolicyPropose => true,
        Route::PolicyVote => true,
        Route::DocPut => true,
        Route::DeviceLink => true,
        _ => false,
    }
}

/// Does the operation publish a record, authored by the sender?
pub fn is_write(r: Route) -> (yes: bool)
    ensures
        yes == publishes(r),
{
    match r {
        Route::ProfilePut => true,
        Route::MediaPut => true,
        Route::PostCreate => true,
        Route::Vote => true,
        Route::Follow => true,
        Route::StreamStart => true,
        Route::StreamAppend => true,
        Route::StreamEnd => true,
        Route::BoardPut => true,
        Route::Banvote => true,
        Route::PolicyPropose => true,
        Route::PolicyVote => true,
        Route::DocPut => true,
        Route::DeviceLink => true,
        _ => false,
    }
}

/// The topics that mean an operation are exactly those that the node serves.
pub proof fn law_every_topic_is_routed(topic: Seq<char>)
    ensures
        route_of(topic) !is Unknown <==> exists|i: int|
            0 <= i < proto::RPC_TOPICS@.len() && (#[trigger] proto::RPC_TOPICS@[i])@ == topic,
{
    let topics = proto::RPC_TOPICS@;
    assert(topics[0]@ == proto::T_PROFILE_PUT@);
    assert(topics[1]@ == proto::T_PROFILE_GET@);
    assert(topics[2]@ == proto::T_MEDIA_PUT@);
    assert(topics[3]@ == proto::T_MEDIA_GET@);
    assert(topics[4]@ == proto::T_POST_CREATE@);
    assert(topics[5]@ == proto::T_POST_GET@);
    assert(topics[6]@ == proto::T_THREADS@);
    assert(topics[7]@ == proto::T_COMMENTS@);
    assert(topics[8]@ == proto::T_VOTE@);
    assert(topics[9]@ == proto::T_FOLLOW@);
    assert(topics[10]@ == proto::T_KARMA@);
    assert(topics[11]@ == proto::T_STREAM_START@);
    assert(topics[12]@ == proto::T_STREAM_APPEND@);
    assert(topics[13]@ == proto::T_STREAM_END@);
    assert(topics[14]@ == proto::T_STREAM_GET@);
    assert(topics[15]@ == proto::T_STREAMS_LIVE@);
    assert(topics[16]@ == proto::T_REPLICATE@);
    assert(topics[17]@ == proto::T_BOARD_PUT@);
    assert(topics[18]@ == proto::T_BOARD_GET@);
    assert(topics[19]@ == proto::T_BOARDS@);
    assert(topics[20]@ == proto::T_FEED@);
    assert(topics[21]@ == proto::T_BANVOTE@);
    assert(topics[22]@ == proto::T_BANSTANDING@);
    assert(topics[23]@ == proto::T_POLICY_PROPOSE@);
    assert(topics[24]@ == proto::T_POLICY_VOTE@);
    assert(topics[25]@ == proto::T_PROPOSALS@);
    assert(topics[26]@ == proto::T_PROPOSAL_GET@);
    assert(topics[27]@ == proto::T_DOC_PUT@);
    assert(topics[28]@ == proto::T_DOC_GET@);
    assert(topics[29]@ == proto::T_DOCS_BY@);
    assert(topics[30]@ == proto::T_DOC_HISTORY@);
    assert(topics[31]@ == proto::T_DOC_LATEST@);
    assert(topics[32]@ == proto::T_DOC_DIFF@);
    assert(topics[33]@ == proto::T_BACKLINKS@);
    assert(topics[34]@ == proto::T_DEVICE_LINK@);
}

/// The envelope is the answer to a topic that means nothing.
pub open spec fn rejects_topic(envelope: Envelope, topic: Seq<char>) -> bool {
    &&& !envelope.ok
    &&& envelope.error.deep_view() == Some("unknown topic: "@ + topic)
    &&& envelope.data@ == proto::json_null()
}

/// The envelope is the answer to a request body that cannot be read.
pub open spec fn rejects_body(envelope: Envelope, why: Seq<char>) -> bool {
    &&& !envelope.ok
    &&& envelope.error.deep_view() == Some("bad request body: "@ + why)
    &&& envelope.data@ == proto::json_null()
}

/// The JSON text that tells a replicating peer that nothing was taken in.
pub open spec fn json_not_ok() -> Seq<char> {
    "{\"ok\":false}"@
}

/// The envelope is the answer to a message on `topic` whose body cannot be read: an unknown topic is
/// named, a replication push is told that nothing was taken in, and any other request is told why its
/// body is bad.
pub open spec fn refuses(envelope: Envelope, topic: Seq<char>, why: Seq<char>) -> bool {
    match route_of(topic) {
        Route::Unknown => rejects_topic(envelope, topic),
        Route::Replicate => envelope.ok && envelope.error is None && envelope.data@ == json_not_ok(),
        _ => rejects_body(envelope, why),
    }
}

/// The answer to a topic that means nothing.
pub fn unknown_topic(topic: &str) -> (envelope: Envelope)
    ensures
        rejects_topic(envelope, topic@),
{
    let mut msg = "unknown topic: ".to_owned();
    msg.append(topic);
    Envelope::err(&msg)
}

/// The answer to a request body that cannot be read.
pub fn bad_request(why: &str) -> (envelope: Envelope)
    ensures
        rejects_body(envelope, why@),
{
    let mut msg = "bad request body: ".to_owned();
    msg.append(why);
    Envelope::err(&msg)
}

/// The answer to a message whose body cannot be read.
pub fn refusal(topic: &str, why: &str) -> (envelope: Envelope)
    ensures
        refuses(envelope, topic@, why@),
{
    match route(topic) {
        Route::Unknown => unknown_topic(topic),
        Route::Replicate => Envelope::ok("{\"ok\":false}".to_owned()),
        _ => bad_request(why),
    }
}

/// The envelope answers an operation that came to `outcome`.
pub open spec fn replies(outcome: Result<String, String>, envelope: Envelope) -> bool {
    match outcome {
        Ok(data) => envelope.ok && envelope.error is None && envelope.data@ == data@,
        Err(e) => !envelope.ok && envelope.error.deep_view() == Some(e@) && envelope.data@ == proto::json_null(),
    }
}

/// A reply delivers what the operation came to: its response, or its error.
pub proof fn law_replies_deliver_the_outcome(outcome: Result<String, String>, envelope: Envelope)
    requires
        replies(outcome, envelope),
    ensures
        outcome matches Ok(data) ==> envelope.delivers() == Ok::<Seq<char>, Seq<char>>(data@),
        outcome matches Err(e) ==> envelope.delivers() == Err::<Seq<char>, Seq<char>>(e@),
{
}

/// The answer to an operation that was carried out: its response as JSON text, or its error.
pub fn reply(outcome: Result<String, String>) -> (envelope: Envelope)
    ensures
        replies(outcome, envelope),
{
    match outcome {
        Ok(data) => Envelope::ok(data),
        Err(e) => Envelope::err(&e),
    }
}

} // verus!
