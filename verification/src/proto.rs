//! The wire protocol: topic names and the typed request and response payloads on each.
//!
//! Each logical call is one topic (`trana/<noun>/<verb>/v1`). The request is a struct of this module,
//! the reply an [`Envelope`]. Authorship is not carried in request bodies: the node uses the
//! authenticated sender, so a caller can only ever act as itself.
use crate::extra::Extra;
use crate::feed::PostView;
use crate::governance::{BoardView, ProposalView};
use crate::karma::{ComputeTrust, SocialKarma, TrustScore};
use crate::model::{
    BoardPolicy, Body, BodyModel, FileRef, Link, Media, MediaKind, MediaRef, Profile, ProfileModel, StreamKind,
};
use crate::people::ProfileView;
use crate::record::Record;
use crate::refs::Ref;
use crate::diff::DiffLine;
use crate::documents::DocumentView;
use crate::streams::StreamView;
use vstd::prelude::*;

verus! {

/// The service name nodes advertise and clients locate.
pub const SERVICE: &'static str = "trana";

/// The pub/sub topic every node gossips accepted records on.
pub const GOSSIP: &'static str = "trana/events/v1";

pub const T_PROFILE_PUT: &'static str = "trana/profile/put/v1";

pub const T_PROFILE_GET: &'static str = "trana/profile/get/v1";

pub const T_MEDIA_PUT: &'static str = "trana/media/put/v1";

pub const T_MEDIA_GET: &'static str = "trana/media/get/v1";

pub const T_POST_CREATE: &'static str = "trana/post/create/v1";

pub const T_POST_GET: &'static str = "trana/post/get/v1";

pub const T_THREADS: &'static str = "trana/threads/v1";

pub const T_COMMENTS: &'static str = "trana/comments/v1";

pub const T_VOTE: &'static str = "trana/vote/v1";

pub const T_FOLLOW: &'static str = "trana/follow/v1";

pub const T_KARMA: &'static str = "trana/karma/v1";

pub const T_STREAM_START: &'static str = "trana/stream/start/v1";

pub const T_STREAM_APPEND: &'static str = "trana/stream/append/v1";

pub const T_STREAM_END: &'static str = "trana/stream/end/v1";

pub const T_STREAM_GET: &'static str = "trana/stream/get/v1";

pub const T_STREAMS_LIVE: &'static str = "trana/streams/live/v1";

pub const T_REPLICATE: &'static str = "trana/replicate/v1";

// ----- community governance, documents and devices -----

pub const T_BOARD_PUT: &'static str = "trana/board/put/v1";

pub const T_BOARD_GET: &'static str = "trana/board/get/v1";

pub const T_BOARDS: &'static str = "trana/boards/v1";

pub const T_FEED: &'static str = "trana/feed/v1";

pub const T_BANVOTE: &'static str = "trana/ban/vote/v1";

pub const T_BANSTANDING: &'static str = "trana/ban/standing/v1";

pub const T_POLICY_PROPOSE: &'static str = "trana/policy/propose/v1";

pub const T_POLICY_VOTE: &'static str = "trana/policy/vote/v1";

pub const T_PROPOSALS: &'static str = "trana/proposals/v1";

pub const T_PROPOSAL_GET: &'static str = "trana/proposal/get/v1";

pub const T_DOC_PUT: &'static str = "trana/doc/put/v1";

pub const T_DOC_GET: &'static str = "trana/doc/get/v1";

pub const T_DOCS_BY: &'static str = "trana/docs/by/v1";

pub const T_DOC_HISTORY: &'static str = "trana/doc/history/v1";

pub const T_DOC_LATEST: &'static str = "trana/doc/latest/v1";

pub const T_DOC_DIFF: &'static str = "trana/doc/diff/v1";

pub const T_BACKLINKS: &'static str = "trana/backlinks/v1";

pub const T_DEVICE_LINK: &'static str = "trana/device/link/v1";

/// Every request/reply topic a node serves (the [`GOSSIP`] topic is subscribed separately).
pub const RPC_TOPICS: [&'static str; 35] = [
    T_PROFILE_PUT,
    T_PROFILE_GET,
    T_MEDIA_PUT,
    T_MEDIA_GET,
    T_POST_CREATE,
    T_POST_GET,
    T_THREADS,
    T_COMMENTS,
    T_VOTE,
    T_FOLLOW,
    T_KARMA,
    T_STREAM_START,
    T_STREAM_APPEND,
    T_STREAM_END,
    T_STREAM_GET,
    T_STREAMS_LIVE,
    T_REPLICATE,
    T_BOARD_PUT,
    T_BOARD_GET,
    T_BOARDS,
    T_FEED,
    T_BANVOTE,
    T_BANSTANDING,
    T_POLICY_PROPOSE,
    T_POLICY_VOTE,
    T_PROPOSALS,
    T_PROPOSAL_GET,
    T_DOC_PUT,
    T_DOC_GET,
    T_DOCS_BY,
    T_DOC_HISTORY,
    T_DOC_LATEST,
    T_DOC_DIFF,
    T_BACKLINKS,
    T_DEVICE_LINK,
];

/// The reply envelope on every topic. `ok` tells success (`data` holds the response as JSON text) from
/// failure (`error` says why).
pub struct Envelope {
    pub ok: bool,
    pub error: Option<String>,
    pub data: String,
}

/// The JSON text of no value.
pub open spec fn json_null() -> Seq<char> {
    "null"@
}

impl Envelope {
    /// What the envelope delivers: its data, or the error it carries.
    pub open spec fn delivers(&self) -> Result<Seq<char>, Seq<char>> {
        if self.ok {
            Ok(self.data@)
        } else {
            Err(
                match self.error {
                    Some(msg) => msg@,
                    None => "unknown error"@,
                },
            )
        }
    }

    /// A success envelope wrapping `data`, JSON text.
    pub fn ok(data: String) -> (envelope: Envelope)
        ensures
            envelope.ok,
            envelope.error is None,
            envelope.data@ == data@,
            envelope.delivers() == Ok::<Seq<char>, Seq<char>>(data@),
    {
        Envelope { ok: true, error: None, data }
    }

    /// A failure envelope carrying `msg`.
    pub fn err(msg: &str) -> (envelope: Envelope)
        ensures
            !envelope.ok,
            envelope.error.deep_view() == Some(msg@),
            envelope.data@ == json_null(),
            envelope.delivers() == Err::<Seq<char>, Seq<char>>(msg@),
    {
        Envelope { ok: false, error: Some(msg.to_owned()), data: "null".to_owned() }
    }

    /// What the envelope delivers: its data, or the error it carries.
    pub fn outcome(self) -> (outcome: Result<String, String>)
        ensures
            match outcome {
                Ok(data) => self.delivers() == Ok::<Seq<char>, Seq<char>>(data@),
                Err(e) => self.delivers() == Err::<Seq<char>, Seq<char>>(e@),
            },
    {
        if self.ok {
            Ok(self.data)
        } else {
            match self.error {
                Some(msg) => Err(msg),
                None => Err("unknown error".to_owned()),
            }
        }
    }
}

/// Set the caller's profile.
pub struct ProfilePutReq {
    pub handle: Option<String>,
    pub display_name: String,
    pub bio: String,
    pub avatar: Option<MediaRef>,
    pub links: Vec<Link>,
    /// Other NodeIds (devices) this user owns.
    pub devices: Vec<String>,
}

/// Read a profile.
pub struct ProfileGetReq {
    pub node_id: String,
}

/// A profile plus its computed trust.
pub struct ProfileResp {
    pub profile: Option<ProfileView>,
    pub social: SocialKarma,
    pub compute: ComputeTrust,
    pub trust: TrustScore,
}

/// Register uploaded bytes.
pub struct MediaPutReq {
    pub kind: MediaKind,
    /// Object CID of the already uploaded bytes.
    pub object_cid: String,
    pub mime: String,
    pub size: u64,
    pub title: String,
    pub duration_ms: Option<u64>,
    pub width: Option<u32>,
    pub height: Option<u32>,
    pub thumbnail: Option<MediaRef>,
    pub extra: Extra,
    /// Desired replica count for the bytes (0 = node default).
    pub replicas: u32,
}

/// The id of the record that was written.
pub struct IdResp {
    pub id: String,
}

/// Read a media descriptor.
pub struct MediaGetReq {
    pub media_id: String,
}

/// A media descriptor, if known.
pub struct MediaResp {
    pub media: Option<Media>,
}

/// Create a post or comment.
pub struct PostCreateReq {
    pub board: String,
    pub parent: Option<String>,
    pub title: Option<String>,
    pub body: String,
    pub media: Vec<MediaRef>,
}

/// Read a post.
pub struct PostGetReq {
    pub id: String,
}

/// A post, if known.
pub struct PostResp {
    pub post: Option<PostView>,
}

/// List the threads of a board.
pub struct ThreadsReq {
    pub board: String,
    pub sort: String,
    pub limit: usize,
}

/// Threads.
pub struct ThreadsResp {
    pub threads: Vec<PostView>,
}

/// List the comments below a root.
pub struct CommentsReq {
    pub root: String,
    pub sort: String,
}

/// Comments.
pub struct CommentsResp {
    pub comments: Vec<PostView>,
}

/// Vote on a target.
pub struct VoteReq {
    pub target: String,
    /// +1 / -1 / 0.
    pub value: i8,
}

/// Follow or unfollow a user.
pub struct FollowReq {
    pub followee: String,
    pub active: bool,
}

/// Success without a value.
pub struct OkResp {
    pub ok: bool,
}

/// Read the reputation of a node.
pub struct KarmaReq {
    pub node_id: String,
}

/// The reputation of a node.
pub struct KarmaResp {
    pub social: SocialKarma,
    pub compute: ComputeTrust,
    pub trust: TrustScore,
}

/// Begin a live stream.
pub struct StreamStartReq {
    pub title: String,
    pub kind: StreamKind,
    pub board: Option<String>,
    pub thumbnail: Option<MediaRef>,
    pub extra: Extra,
}

/// Append a segment to a live stream.
pub struct StreamAppendReq {
    pub stream: String,
    pub seq: u64,
    pub object_cid: String,
    pub duration_ms: u64,
    pub replicas: u32,
}

/// End a live stream.
pub struct StreamEndReq {
    pub stream: String,
    pub recording_cid: Option<String>,
}

/// Read a stream.
pub struct StreamGetReq {
    pub id: String,
}

/// A stream, if known.
pub struct StreamResp {
    pub stream: Option<StreamView>,
}

/// The live streams.
pub struct StreamsLiveResp {
    pub streams: Vec<StreamView>,
}

/// A replication push: a record to fold in, plus object CIDs the receiver should pull and pin.
pub struct ReplicateReq {
    pub record: Record,
    pub object_cids: Vec<String>,
}

/// Register a board.
pub struct BoardPutReq {
    pub board: String,
    pub title: String,
    pub description: String,
    pub policy: BoardPolicy,
}

/// Read a board.
pub struct BoardGetReq {
    pub board: String,
}

/// A board.
pub struct BoardResp {
    pub board: BoardView,
}

/// All boards.
pub struct BoardsResp {
    pub boards: Vec<BoardView>,
}

/// A board, home or cross-board feed.
pub struct FeedReq {
    /// `board`, `home`, or anything else for all boards.
    pub scope: String,
    pub board: Option<String>,
    pub viewer: Option<String>,
    pub sort: String,
    pub limit: usize,
}

/// Vote on banning a user from a board.
pub struct BanVoteReq {
    pub board: String,
    pub target: String,
    pub support: bool,
    pub reason: String,
}

/// Read a ban standing.
pub struct BanStandingReq {
    pub board: String,
    pub target: String,
}

/// Propose a policy.
pub struct PolicyProposeReq {
    pub board: Option<String>,
    pub title: String,
    pub body: String,
}

/// Vote on a proposal.
pub struct PolicyVoteReq {
    pub proposal: String,
    pub support: bool,
}

/// List proposals.
pub struct ProposalsReq {
    pub board: Option<String>,
}

/// Proposals.
pub struct ProposalsResp {
    pub proposals: Vec<ProposalView>,
}

/// Read a proposal.
pub struct ProposalGetReq {
    pub id: String,
}

/// A proposal, if known.
pub struct ProposalResp {
    pub proposal: Option<ProposalView>,
}

/// Create a document or publish a new version of one.
pub struct DocPutReq {
    pub title: String,
    pub body: String,
    pub file: Option<FileRef>,
    pub refs: Vec<Ref>,
    pub board: Option<String>,
    pub series: Option<String>,
    pub prev: Option<String>,
}

/// Read a version of a document.
pub struct DocGetReq {
    pub id: String,
}

/// A version of a document, if known.
pub struct DocResp {
    pub document: Option<DocumentView>,
}

/// List the versions that an author has published.
pub struct DocsByReq {
    pub author: String,
}

/// Versions of documents.
pub struct DocsResp {
    pub documents: Vec<DocumentView>,
}

/// Read the history or the latest version of a document, by the id of any version or by its series.
pub struct DocKeyReq {
    pub key: String,
}

/// Compare two versions of documents.
pub struct DocDiffReq {
    pub from: String,
    pub to: String,
}

/// How the one version becomes the other, line by line.
pub struct DocDiffResp {
    pub diff: Vec<DiffLine>,
}

/// Find what refers to some content.
pub struct BacklinksReq {
    pub id: String,
}

/// The URIs of what refers to some content.
pub struct BacklinksResp {
    pub uris: Vec<String>,
}

/// Confirm that the calling device belongs to an owner.
pub struct DeviceLinkReq {
    pub owner: String,
    pub active: bool,
}

/// The sort of a request that names none.
pub fn default_sort() -> (sort: String)
    ensures
        sort@ == "hot"@,
{
    "hot".to_owned()
}

/// The limit of a request that names none.
pub fn default_limit() -> (limit: usize)
    ensures
        limit == 50,
{
    50
}

/// Build the [`Body`] for a profile from a put request.
pub fn profile_body(req: ProfilePutReq) -> (body: Body)
    ensures
        body@ == BodyModel::Profile(
            (ProfileModel {
                handle: req.handle.deep_view(),
                display_name: req.display_name@,
                bio: req.bio@,
                avatar: req.avatar.deep_view(),
                links: req.links.deep_view(),
                devices: req.devices.deep_view(),
            }),
        ),
{
    Body::Profile(
        Profile {
            handle: req.handle,
            display_name: req.display_name,
            bio: req.bio,
            avatar: req.avatar,
            links: req.links,
            devices: req.devices,
        },
    )
}

/// The length of a topic, its sixth character from the end and its seventh character: enough to tell the
/// topics apart.
spec fn topic_mark(topic: Seq<char>) -> (nat, char, char) {
    (topic.len(), topic[topic.len() - 6], topic[6])
}

/// No two request/reply topics have the same name.
pub proof fn law_topics_are_unique(i: int, j: int)
    requires
        0 <= i < j < RPC_TOPICS@.len(),
    ensures
        RPC_TOPICS@[i]@ != RPC_TOPICS@[j]@,
{
    assert(topic_mark("trana/profile/put/v1"@) == (20nat, 'p', 'p')) by {
        reveal_strlit("trana/profile/put/v1");
    }
    assert(topic_mark("trana/profile/get/v1"@) == (20nat, 'g', 'p')) by {
        reveal_strlit("trana/profile/get/v1");
    }
    assert(topic_mark("trana/media/put/v1"@) == (18nat, 'p', 'm')) by {
        reveal_strlit("trana/media/put/v1");
    }
    assert(topic_mark("trana/media/get/v1"@) == (18nat, 'g', 'm')) by {
        reveal_strlit("trana/media/get/v1");
    }
    assert(topic_mark("trana/post/create/v1"@) == (20nat, 'a', 'p')) by {
        reveal_strlit("trana/post/create/v1");
    }
    assert(topic_mark("trana/post/get/v1"@) == (17nat, 'g', 'p')) by {
        reveal_strlit("trana/post/get/v1");
    }
    assert(topic_mark("trana/threads/v1"@) == (16nat, 'a', 't')) by {
        reveal_strlit("trana/threads/v1");
    }
    assert(topic_mark("trana/comments/v1"@) == (17nat, 'n', 'c')) by {
        reveal_strlit("trana/comments/v1");
    }
    assert(topic_mark("trana/vote/v1"@) == (13nat, 'o', 'v')) by {
        reveal_strlit("trana/vote/v1");
    }
    assert(topic_mark("trana/follow/v1"@) == (15nat, 'l', 'f')) by {
        reveal_strlit("trana/follow/v1");
    }
    assert(topic_mark("trana/karma/v1"@) == (14nat, 'r', 'k')) by {
        reveal_strlit("trana/karma/v1");
    }
    assert(topic_mark("trana/stream/start/v1"@) == (21nat, 'a', 's')) by {
        reveal_strlit("trana/stream/start/v1");
    }
    assert(topic_mark("trana/stream/append/v1"@) == (22nat, 'e', 's')) by {
        reveal_strlit("trana/stream/append/v1");
    }
    assert(topic_mark("trana/stream/end/v1"@) == (19nat, 'e', 's')) by {
        reveal_strlit("trana/stream/end/v1");
    }
    assert(topic_mark("trana/stream/get/v1"@) == (19nat, 'g', 's')) by {
        reveal_strlit("trana/stream/get/v1");
    }
    assert(topic_mark("trana/streams/live/v1"@) == (21nat, 'i', 's')) by {
        reveal_strlit("trana/streams/live/v1");
    }
    assert(topic_mark("trana/replicate/v1"@) == (18nat, 'a', 'r')) by {
        reveal_strlit("trana/replicate/v1");
    }
    assert(topic_mark("trana/board/put/v1"@) == (18nat, 'p', 'b')) by {
        reveal_strlit("trana/board/put/v1");
    }
    assert(topic_mark("trana/board/get/v1"@) == (18nat, 'g', 'b')) by {
        reveal_strlit("trana/board/get/v1");
    }
    assert(topic_mark("trana/boards/v1"@) == (15nat, 'r', 'b')) by {
        reveal_strlit("trana/boards/v1");
    }
    assert(topic_mark("trana/feed/v1"@) == (13nat, 'e', 'f')) by {
        reveal_strlit("trana/feed/v1");
    }
    assert(topic_mark("trana/ban/vote/v1"@) == (17nat, 'o', 'b')) by {
        reveal_strlit("trana/ban/vote/v1");
    }
    assert(topic_mark("trana/ban/standing/v1"@) == (21nat, 'i', 'b')) by {
        reveal_strlit("trana/ban/standing/v1");
    }
    assert(topic_mark("trana/policy/propose/v1"@) == (23nat, 'o', 'p')) by {
        reveal_strlit("trana/policy/propose/v1");
    }
    assert(topic_mark("trana/policy/vote/v1"@) == (20nat, 'o', 'p')) by {
        reveal_strlit("trana/policy/vote/v1");
    }
    assert(topic_mark("trana/proposals/v1"@) == (18nat, 'a', 'p')) by {
        reveal_strlit("trana/proposals/v1");
    }
    assert(topic_mark("trana/proposal/get/v1"@) == (21nat, 'g', 'p')) by {
        reveal_strlit("trana/proposal/get/v1");
    }
    assert(topic_mark("trana/doc/put/v1"@) == (16nat, 'p', 'd')) by {
        reveal_strlit("trana/doc/put/v1");
    }
    assert(topic_mark("trana/doc/get/v1"@) == (16nat, 'g', 'd')) by {
        reveal_strlit("trana/doc/get/v1");
    }
    assert(topic_mark("trana/docs/by/v1"@) == (16nat, '/', 'd')) by {
        reveal_strlit("trana/docs/by/v1");
    }
    assert(topic_mark("trana/doc/history/v1"@) == (20nat, 'o', 'd')) by {
        reveal_strlit("trana/doc/history/v1");
    }
    assert(topic_mark("trana/doc/latest/v1"@) == (19nat, 'e', 'd')) by {
        reveal_strlit("trana/doc/latest/v1");
    }
    assert(topic_mark("trana/doc/diff/v1"@) == (17nat, 'i', 'd')) by {
        reveal_strlit("trana/doc/diff/v1");
    }
    assert(topic_mark("trana/backlinks/v1"@) == (18nat, 'n', 'b')) by {
        reveal_strlit("trana/backlinks/v1");
    }
    assert(topic_mark("trana/device/link/v1"@) == (20nat, 'i', 'd')) by {
        reveal_strlit("trana/device/link/v1");
    }
    assert(topic_mark(RPC_TOPICS@[i]@) != topic_mark(RPC_TOPICS@[j]@));
}

} // verus!
