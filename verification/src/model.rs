//! The content model: every kind of thing a user can publish.
//!
//! Each type is plain data; beside it stands its model, the same data over mathematical text.
//! Mutable kinds (profile, vote, follow) are last-write-wins; append kinds are immutable.
use crate::double::Double;
use crate::extra::Extra;
use crate::refs::RefModel;
pub use crate::refs::{extract_refs, Ref, RefKind};
use vstd::prelude::*;

verus! {

/// A reference to a [`Media`] record by its id.
pub struct MediaRef {
    pub media_id: String,
}

impl View for MediaRef {
    type V = Seq<char>;

    open spec fn view(&self) -> Seq<char> {
        self.media_id@
    }
}

impl DeepView for MediaRef {
    type V = Seq<char>;

    open spec fn deep_view(&self) -> Seq<char> {
        self@
    }
}

impl Clone for MediaRef {
    fn clone(&self) -> (copy: Self)
        ensures
            copy@ == self@,
    {
        MediaRef { media_id: self.media_id.clone() }
    }
}

impl MediaRef {
    /// A reference to the media record `media_id`.
    pub fn new(media_id: &str) -> (reference: Self)
        ensures
            reference@ == media_id@,
    {
        MediaRef { media_id: media_id.to_owned() }
    }
}

/// A labelled external link on a profile.
pub struct Link {
    pub label: String,
    pub url: String,
}

/// What a [`Link`] says.
#[verifier::ext_equal]
pub struct LinkModel {
    pub label: Seq<char>,
    pub url: Seq<char>,
}

impl View for Link {
    type V = LinkModel;

    open spec fn view(&self) -> LinkModel {
        LinkModel {
            label: self.label@,
            url: self.url@,
        }
    }
}

impl DeepView for Link {
    type V = LinkModel;

    open spec fn deep_view(&self) -> LinkModel {
        self@
    }
}

impl Clone for Link {
    fn clone(&self) -> (copy: Self)
        ensures
            copy@ == self@,
    {
        let copy = Link {
            label: self.label.clone(),
            url: self.url.clone(),
        };
        copy
    }
}

/// A user's profile. The user is the record author (a NodeId); a person may own several devices, so
/// `devices` lists the other NodeIds they control.
pub struct Profile {
    /// Optional human handle. Display only; not unique.
    pub handle: Option<String>,
    /// Display name.
    pub display_name: String,
    /// Free-form bio (markdown).
    pub bio: String,
    /// Avatar image, by media record id.
    pub avatar: Option<MediaRef>,
    /// External links (website, socials, ...).
    pub links: Vec<Link>,
    /// Other NodeIds (devices) this user owns.
    pub devices: Vec<String>,
}

/// What a [`Profile`] says.
#[verifier::ext_equal]
pub struct ProfileModel {
    pub handle: Option<Seq<char>>,
    pub display_name: Seq<char>,
    pub bio: Seq<char>,
    pub avatar: Option<Seq<char>>,
    pub links: Seq<LinkModel>,
    pub devices: Seq<Seq<char>>,
}

impl View for Profile {
    type V = ProfileModel;

    open spec fn view(&self) -> ProfileModel {
        ProfileModel {
            handle: self.handle.deep_view(),
            display_name: self.display_name@,
            bio: self.bio@,
            avatar: self.avatar.deep_view(),
            links: self.links.deep_view(),
            devices: self.devices.deep_view(),
        }
    }
}

impl Default for Profile {
    /// A profile that says nothing.
    fn default() -> (profile: Self)
        ensures
            profile@ == (ProfileModel {
                handle: None,
                display_name: Seq::empty(),
                bio: Seq::empty(),
                avatar: None,
                links: Seq::empty(),
                devices: Seq::empty(),
            }),
    {
        let profile = Profile {
            handle: None,
            display_name: String::new(),
            bio: String::new(),
            avatar: None,
            links: Vec::new(),
            devices: Vec::new(),
        };
        assert(profile.links.deep_view() =~= Seq::empty());
        assert(profile.devices.deep_view() =~= Seq::empty());
        profile
    }
}

impl Clone for Profile {
    fn clone(&self) -> (copy: Self)
        ensures
            copy@ == self@,
    {
        let copy = Profile {
            handle: self.handle.clone(),
            display_name: self.display_name.clone(),
            bio: self.bio.clone(),
            avatar: self.avatar.clone(),
            links: self.links.clone(),
            devices: self.devices.clone(),
        };
        assert(copy.links.deep_view() =~= self.links.deep_view());
        assert(copy.devices.deep_view() =~= self.devices.deep_view());
        copy
    }
}

/// What a piece of media is.
#[derive(Debug, Clone, Copy, PartialEq, Eq, Structural)]
pub enum MediaKind {
    Image,
    Video,
    Audio,
    Podcast,
    Document,
}

/// A content-addressed media object: the descriptor that names the bytes and carries metadata.
pub struct Media {
    pub kind: MediaKind,
    /// Object CID of the bytes.
    pub object_cid: String,
    /// MIME type, e.g. `video/mp4`.
    pub mime: String,
    /// Total byte size of the object.
    pub size: u64,
    /// Human title.
    pub title: String,
    /// Duration of time-based media, in milliseconds.
    pub duration_ms: Option<u64>,
    /// Pixel width of visual media.
    pub width: Option<u32>,
    /// Pixel height of visual media.
    pub height: Option<u32>,
    /// Optional poster image, by media record id.
    pub thumbnail: Option<MediaRef>,
    /// Arbitrary extra metadata.
    pub extra: Extra,
}

/// What a [`Media`] says.
#[verifier::ext_equal]
pub struct MediaModel {
    pub kind: MediaKind,
    pub object_cid: Seq<char>,
    pub mime: Seq<char>,
    pub size: u64,
    pub title: Seq<char>,
    pub duration_ms: Option<u64>,
    pub width: Option<u32>,
    pub height: Option<u32>,
    pub thumbnail: Option<Seq<char>>,
    pub extra: Seq<(Seq<char>, Seq<char>)>,
}

impl View for Media {
    type V = MediaModel;

    open spec fn view(&self) -> MediaModel {
        MediaModel {
            kind: self.kind,
            object_cid: self.object_cid@,
            mime: self.mime@,
            size: self.size,
            title: self.title@,
            duration_ms: self.duration_ms,
            width: self.width,
            height: self.height,
            thumbnail: self.thumbnail.deep_view(),
            extra: self.extra@,
        }
    }
}

impl Clone for Media {
    fn clone(&self) -> (copy: Self)
        ensures
            copy@ == self@,
    {
        let copy = Media {
            kind: self.kind,
            object_cid: self.object_cid.clone(),
            mime: self.mime.clone(),
            size: self.size,
            title: self.title.clone(),
            duration_ms: self.duration_ms,
            width: self.width,
            height: self.height,
            thumbnail: self.thumbnail.clone(),
            extra: self.extra.clone(),
        };
        copy
    }
}

/// A post: a thread root when `parent` is `None`, else a comment on that post.
pub struct Post {
    /// The board this post belongs to.
    pub board: String,
    /// Parent post id; `None` for a thread root.
    pub parent: Option<String>,
    /// Title (thread roots).
    pub title: Option<String>,
    /// Body text (markdown).
    pub body: String,
    /// Attached media.
    pub media: Vec<MediaRef>,
}

/// What a [`Post`] says.
#[verifier::ext_equal]
pub struct PostModel {
    pub board: Seq<char>,
    pub parent: Option<Seq<char>>,
    pub title: Option<Seq<char>>,
    pub body: Seq<char>,
    pub media: Seq<Seq<char>>,
}

impl View for Post {
    type V = PostModel;

    open spec fn view(&self) -> PostModel {
        PostModel {
            board: self.board@,
            parent: self.parent.deep_view(),
            title: self.title.deep_view(),
            body: self.body@,
            media: self.media.deep_view(),
        }
    }
}

impl Clone for Post {
    fn clone(&self) -> (copy: Self)
        ensures
            copy@ == self@,
    {
        let copy = Post {
            board: self.board.clone(),
            parent: self.parent.clone(),
            title: self.title.clone(),
            body: self.body.clone(),
            media: self.media.clone(),
        };
        assert(copy.media.deep_view() =~= self.media.deep_view());
        copy
    }
}

impl Post {
    /// Is this post a thread root?
    pub fn is_root(&self) -> (root: bool)
        ensures
            root == self@.is_root(),
    {
        self.parent.is_none()
    }
}

impl PostModel {
    /// A post without a parent starts a thread.
    pub open spec fn is_root(self) -> bool {
        self.parent is None
    }
}

/// A vote on a target record: `+1` up, `-1` down, `0` clears. The voter is the record author.
pub struct Vote {
    /// Target record id.
    pub target: String,
    /// `+1` up, `-1` down, `0` clears the vote.
    pub value: i8,
}

/// What a [`Vote`] says.
#[verifier::ext_equal]
pub struct VoteModel {
    pub target: Seq<char>,
    pub value: i8,
}

impl View for Vote {
    type V = VoteModel;

    open spec fn view(&self) -> VoteModel {
        VoteModel {
            target: self.target@,
            value: self.value,
        }
    }
}

impl Clone for Vote {
    fn clone(&self) -> (copy: Self)
        ensures
            copy@ == self@,
    {
        let copy = Vote {
            target: self.target.clone(),
            value: self.value,
        };
        copy
    }
}

/// Follow or unfollow another user. The follower is the record author.
pub struct Follow {
    /// The NodeId being followed.
    pub followee: String,
    /// `true` follow, `false` unfollow.
    pub active: bool,
}

/// What a [`Follow`] says.
#[verifier::ext_equal]
pub struct FollowModel {
    pub followee: Seq<char>,
    pub active: bool,
}

impl View for Follow {
    type V = FollowModel;

    open spec fn view(&self) -> FollowModel {
        FollowModel {
            followee: self.followee@,
            active: self.active,
        }
    }
}

impl Clone for Follow {
    fn clone(&self) -> (copy: Self)
        ensures
            copy@ == self@,
    {
        let copy = Follow {
            followee: self.followee.clone(),
            active: self.active,
        };
        copy
    }
}

/// What a live stream carries.
#[derive(Debug, Clone, Copy, PartialEq, Eq, Structural)]
pub enum StreamKind {
    Video,
    Audio,
}

/// Begin a live stream. The id of the record that carries this body is the stream id.
pub struct StreamStart {
    pub title: String,
    pub kind: StreamKind,
    /// Optional board to also surface the stream in.
    pub board: Option<String>,
    /// Optional poster image, by media record id.
    pub thumbnail: Option<MediaRef>,
    pub extra: Extra,
}

/// What a [`StreamStart`] says.
#[verifier::ext_equal]
pub struct StreamStartModel {
    pub title: Seq<char>,
    pub kind: StreamKind,
    pub board: Option<Seq<char>>,
    pub thumbnail: Option<Seq<char>>,
    pub extra: Seq<(Seq<char>, Seq<char>)>,
}

impl View for StreamStart {
    type V = StreamStartModel;

    open spec fn view(&self) -> StreamStartModel {
        StreamStartModel {
            title: self.title@,
            kind: self.kind,
            board: self.board.deep_view(),
            thumbnail: self.thumbnail.deep_view(),
            extra: self.extra@,
        }
    }
}

impl Clone for StreamStart {
    fn clone(&self) -> (copy: Self)
        ensures
            copy@ == self@,
    {
        let copy = StreamStart {
            title: self.title.clone(),
            kind: self.kind,
            board: self.board.clone(),
            thumbnail: self.thumbnail.clone(),
            extra: self.extra.clone(),
        };
        copy
    }
}

/// One segment of a live stream: a short, content-addressed media chunk.
pub struct StreamSegment {
    /// The stream id.
    pub stream: String,
    /// Sequence number, starting at 0.
    pub seq: u64,
    /// Object CID of the segment bytes.
    pub object_cid: String,
    /// Segment duration in milliseconds.
    pub duration_ms: u64,
}

/// What a [`StreamSegment`] says.
#[verifier::ext_equal]
pub struct StreamSegmentModel {
    pub stream: Seq<char>,
    pub seq: u64,
    pub object_cid: Seq<char>,
    pub duration_ms: u64,
}

impl View for StreamSegment {
    type V = StreamSegmentModel;

    open spec fn view(&self) -> StreamSegmentModel {
        StreamSegmentModel {
            stream: self.stream@,
            seq: self.seq,
            object_cid: self.object_cid@,
            duration_ms: self.duration_ms,
        }
    }
}

impl DeepView for StreamSegment {
    type V = StreamSegmentModel;

    open spec fn deep_view(&self) -> StreamSegmentModel {
        self@
    }
}

impl Clone for StreamSegment {
    fn clone(&self) -> (copy: Self)
        ensures
            copy@ == self@,
    {
        let copy = StreamSegment {
            stream: self.stream.clone(),
            seq: self.seq,
            object_cid: self.object_cid.clone(),
            duration_ms: self.duration_ms,
        };
        copy
    }
}

/// End a live stream, optionally publishing a recording for replay.
pub struct StreamEnd {
    pub stream: String,
    /// Optional object CID of the full recording.
    pub recording_cid: Option<String>,
}

/// What a [`StreamEnd`] says.
#[verifier::ext_equal]
pub struct StreamEndModel {
    pub stream: Seq<char>,
    pub recording_cid: Option<Seq<char>>,
}

impl View for StreamEnd {
    type V = StreamEndModel;

    open spec fn view(&self) -> StreamEndModel {
        StreamEndModel {
            stream: self.stream@,
            recording_cid: self.recording_cid.deep_view(),
        }
    }
}

impl Clone for StreamEnd {
    fn clone(&self) -> (copy: Self)
        ensures
            copy@ == self@,
    {
        let copy = StreamEnd {
            stream: self.stream.clone(),
            recording_cid: self.recording_cid.clone(),
        };
        copy
    }
}

/// A binary payload of a document version: the bytes are content-addressed; this names them.
pub struct FileRef {
    pub object_cid: String,
    pub mime: String,
    pub size: u64,
    pub name: String,
}

/// What a [`FileRef`] says.
#[verifier::ext_equal]
pub struct FileRefModel {
    pub object_cid: Seq<char>,
    pub mime: Seq<char>,
    pub size: u64,
    pub name: Seq<char>,
}

impl View for FileRef {
    type V = FileRefModel;

    open spec fn view(&self) -> FileRefModel {
        FileRefModel {
            object_cid: self.object_cid@,
            mime: self.mime@,
            size: self.size,
            name: self.name@,
        }
    }
}

impl DeepView for FileRef {
    type V = FileRefModel;

    open spec fn deep_view(&self) -> FileRefModel {
        self@
    }
}

impl Clone for FileRef {
    fn clone(&self) -> (copy: Self)
        ensures
            copy@ == self@,
    {
        let copy = FileRef {
            object_cid: self.object_cid.clone(),
            mime: self.mime.clone(),
            size: self.size,
            name: self.name.clone(),
        };
        copy
    }
}

/// A versioned artifact, markdown or a binary file, that can reference any other content.
/// Each edit is a new record whose `prev` names the version it supersedes and whose `series` is the
/// id of the first version.
pub struct Document {
    pub title: String,
    /// Markdown body (empty for a pure file). May embed `trana://` references.
    pub body: String,
    /// A binary payload, when this document is a file.
    pub file: Option<FileRef>,
    /// References declared besides those in `body`.
    pub refs: Vec<Ref>,
    /// Optional board to surface the document in.
    pub board: Option<String>,
    /// The first version; `None` starts a new series.
    pub series: Option<String>,
    /// The version this supersedes; `None` for the first.
    pub prev: Option<String>,
}

/// What a [`Document`] says.
#[verifier::ext_equal]
pub struct DocumentModel {
    pub title: Seq<char>,
    pub body: Seq<char>,
    pub file: Option<FileRefModel>,
    pub refs: Seq<RefModel>,
    pub board: Option<Seq<char>>,
    pub series: Option<Seq<char>>,
    pub prev: Option<Seq<char>>,
}

impl View for Document {
    type V = DocumentModel;

    open spec fn view(&self) -> DocumentModel {
        DocumentModel {
            title: self.title@,
            body: self.body@,
            file: self.file.deep_view(),
            refs: self.refs.deep_view(),
            board: self.board.deep_view(),
            series: self.series.deep_view(),
            prev: self.prev.deep_view(),
        }
    }
}

impl Clone for Document {
    fn clone(&self) -> (copy: Self)
        ensures
            copy@ == self@,
    {
        let copy = Document {
            title: self.title.clone(),
            body: self.body.clone(),
            file: self.file.clone(),
            refs: self.refs.clone(),
            board: self.board.clone(),
            series: self.series.clone(),
            prev: self.prev.clone(),
        };
        assert(copy.refs.deep_view() =~= self.refs.deep_view());
        copy
    }
}

/// Per-board community parameters, carried in the read-model so that every node applies the same rules.
#[derive(Debug, Clone, Copy, PartialEq, Eq, Structural)]
pub struct BoardPolicy {
    /// Visibility grace window for a new post, in seconds.
    pub grace_secs: u64,
    /// Fraction of the vote (0 to 1) required to ban a user.
    pub ban_support: Double,
    /// Minimum number of distinct ban-voters before a ban can take effect.
    pub ban_quorum: u32,
    /// Minimum trust (0 to 1) to create a post or comment here. Zero is open.
    pub min_trust_to_post: Double,
    /// Minimum trust (0 to 1) to vote here. Zero is open.
    pub min_trust_to_vote: Double,
}

/// The parameters of a board that set none of its own: a six-hour grace window, bans at 0.66 of at
/// least ten voters, and no trust floors.
pub open spec fn default_policy() -> BoardPolicy {
    BoardPolicy {
        grace_secs: 21600,
        ban_support: Double { bits: 0x3FE5_1EB8_51EB_851F },
        ban_quorum: 10,
        min_trust_to_post: Double { bits: 0 },
        min_trust_to_vote: Double { bits: 0 },
    }
}

/// The grace window of a board that sets none: six hours.
pub fn default_grace_secs() -> (secs: u64)
    ensures
        secs == 6 * 3600,
{
    6 * 3600
}

/// The ban fraction of a board that sets none: the double nearest to 0.66.
pub fn default_ban_support() -> (support: Double)
    ensures
        support == default_policy().ban_support,
{
    Double { bits: 0x3FE5_1EB8_51EB_851F }
}

/// The ban quorum of a board that sets none.
pub fn default_ban_quorum() -> (quorum: u32)
    ensures
        quorum == 10,
{
    10
}

/// What a boolean field that is on unless switched off starts as.
pub fn default_true() -> (on: bool)
    ensures
        on,
{
    true
}

impl Default for BoardPolicy {
    fn default() -> (policy: Self)
        ensures
            policy == default_policy(),
    {
        BoardPolicy {
            grace_secs: default_grace_secs(),
            ban_support: default_ban_support(),
            ban_quorum: default_ban_quorum(),
            min_trust_to_post: Double { bits: 0 },
            min_trust_to_vote: Double { bits: 0 },
        }
    }
}

/// Register a board (a community namespace) and its parameters. The first claim of a name sets it.
pub struct BoardCreate {
    pub board: String,
    pub title: String,
    pub description: String,
    pub policy: BoardPolicy,
}

/// What a [`BoardCreate`] says.
#[verifier::ext_equal]
pub struct BoardCreateModel {
    pub board: Seq<char>,
    pub title: Seq<char>,
    pub description: Seq<char>,
    pub policy: BoardPolicy,
}

impl View for BoardCreate {
    type V = BoardCreateModel;

    open spec fn view(&self) -> BoardCreateModel {
        BoardCreateModel {
            board: self.board@,
            title: self.title@,
            description: self.description@,
            policy: self.policy,
        }
    }
}

impl Clone for BoardCreate {
    fn clone(&self) -> (copy: Self)
        ensures
            copy@ == self@,
    {
        let copy = BoardCreate {
            board: self.board.clone(),
            title: self.title.clone(),
            description: self.description.clone(),
            policy: self.policy,
        };
        copy
    }
}

/// A community member's vote on whether a user should be banned from a board. The voter is the
/// record author; one (latest) vote per voter and target.
pub struct BanVote {
    pub board: String,
    /// The NodeId the community is voting on.
    pub target: String,
    /// `true` = ban, `false` = keep.
    pub support: bool,
    pub reason: String,
}

/// What a [`BanVote`] says.
#[verifier::ext_equal]
pub struct BanVoteModel {
    pub board: Seq<char>,
    pub target: Seq<char>,
    pub support: bool,
    pub reason: Seq<char>,
}

impl View for BanVote {
    type V = BanVoteModel;

    open spec fn view(&self) -> BanVoteModel {
        BanVoteModel {
            board: self.board@,
            target: self.target@,
            support: self.support,
            reason: self.reason@,
        }
    }
}

impl Clone for BanVote {
    fn clone(&self) -> (copy: Self)
        ensures
            copy@ == self@,
    {
        let copy = BanVote {
            board: self.board.clone(),
            target: self.target.clone(),
            support: self.support,
            reason: self.reason.clone(),
        };
        copy
    }
}

/// A community policy proposal; its id is the record id. Scoped to a board, or global.
pub struct PolicyProposal {
    pub board: Option<String>,
    pub title: String,
    /// The policy text.
    pub body: String,
}

/// What a [`PolicyProposal`] says.
#[verifier::ext_equal]
pub struct PolicyProposalModel {
    pub board: Option<Seq<char>>,
    pub title: Seq<char>,
    pub body: Seq<char>,
}

impl View for PolicyProposal {
    type V = PolicyProposalModel;

    open spec fn view(&self) -> PolicyProposalModel {
        PolicyProposalModel {
            board: self.board.deep_view(),
            title: self.title@,
            body: self.body@,
        }
    }
}

impl Clone for PolicyProposal {
    fn clone(&self) -> (copy: Self)
        ensures
            copy@ == self@,
    {
        let copy = PolicyProposal {
            board: self.board.clone(),
            title: self.title.clone(),
            body: self.body.clone(),
        };
        copy
    }
}

/// A vote on a [`PolicyProposal`], by proposal record id. One latest vote per voter.
pub struct PolicyVote {
    pub proposal: String,
    /// `true` = in favor, `false` = against.
    pub support: bool,
}

/// What a [`PolicyVote`] says.
#[verifier::ext_equal]
pub struct PolicyVoteModel {
    pub proposal: Seq<char>,
    pub support: bool,
}

impl View for PolicyVote {
    type V = PolicyVoteModel;

    open spec fn view(&self) -> PolicyVoteModel {
        PolicyVoteModel {
            proposal: self.proposal@,
            support: self.support,
        }
    }
}

impl Clone for PolicyVote {
    fn clone(&self) -> (copy: Self)
        ensures
            copy@ == self@,
    {
        let copy = PolicyVote {
            proposal: self.proposal.clone(),
            support: self.support,
        };
        copy
    }
}

/// A device's signed confirmation that it belongs to `owner`. The record author is the device.
pub struct DeviceLink {
    /// The NodeId this device declares it is owned by.
    pub owner: String,
    /// Whether the link is currently asserted (`false` unlinks).
    pub active: bool,
}

/// What a [`DeviceLink`] says.
#[verifier::ext_equal]
pub struct DeviceLinkModel {
    pub owner: Seq<char>,
    pub active: bool,
}

impl View for DeviceLink {
    type V = DeviceLinkModel;

    open spec fn view(&self) -> DeviceLinkModel {
        DeviceLinkModel {
            owner: self.owner@,
            active: self.active,
        }
    }
}

impl Clone for DeviceLink {
    fn clone(&self) -> (copy: Self)
        ensures
            copy@ == self@,
    {
        let copy = DeviceLink {
            owner: self.owner.clone(),
            active: self.active,
        };
        copy
    }
}

/// The payload of a record. One variant per kind of publishable thing.
pub enum Body {
    /// Create or update the author's profile (last-write-wins).
    Profile(Profile),
    /// Register a content-addressed media object.
    Media(Media),
    /// A thread root, or a comment when its `parent` is set.
    Post(Post),
    /// Up, down or clear a vote on a target record (last-write-wins per voter and target).
    Vote(Vote),
    /// Follow or unfollow another user (last-write-wins per follower and followee).
    Follow(Follow),
    /// Begin a live stream; this record's id becomes the stream id.
    StreamStart(StreamStart),
    /// Append one content-addressed segment to a live stream.
    StreamSegment(StreamSegment),
    /// End a live stream, optionally publishing a recording.
    StreamEnd(StreamEnd),
    /// A standalone document that can reference any content.
    Document(Document),
    /// Register a board and its community parameters. First claim sets it.
    BoardCreate(BoardCreate),
    /// A community vote to ban (or keep) a user in a board.
    BanVote(BanVote),
    /// Propose a community policy.
    PolicyProposal(PolicyProposal),
    /// Vote a policy proposal up or down.
    PolicyVote(PolicyVote),
    /// A device confirms that it belongs to an owner.
    DeviceLink(DeviceLink),
}

/// What a [`Body`] says.
#[verifier::ext_equal]
pub enum BodyModel {
    Profile(ProfileModel),
    Media(MediaModel),
    Post(PostModel),
    Vote(VoteModel),
    Follow(FollowModel),
    StreamStart(StreamStartModel),
    StreamSegment(StreamSegmentModel),
    StreamEnd(StreamEndModel),
    Document(DocumentModel),
    BoardCreate(BoardCreateModel),
    BanVote(BanVoteModel),
    PolicyProposal(PolicyProposalModel),
    PolicyVote(PolicyVoteModel),
    DeviceLink(DeviceLinkModel),
}

impl View for Body {
    type V = BodyModel;

    open spec fn view(&self) -> BodyModel {
        match self {
            Body::Profile(x) => BodyModel::Profile(x@),
            Body::Media(x) => BodyModel::Media(x@),
            Body::Post(x) => BodyModel::Post(x@),
            Body::Vote(x) => BodyModel::Vote(x@),
            Body::Follow(x) => BodyModel::Follow(x@),
            Body::StreamStart(x) => BodyModel::StreamStart(x@),
            Body::StreamSegment(x) => BodyModel::StreamSegment(x@),
            Body::StreamEnd(x) => BodyModel::StreamEnd(x@),
            Body::Document(x) => BodyModel::Document(x@),
            Body::BoardCreate(x) => BodyModel::BoardCreate(x@),
            Body::BanVote(x) => BodyModel::BanVote(x@),
            Body::PolicyProposal(x) => BodyModel::PolicyProposal(x@),
            Body::PolicyVote(x) => BodyModel::PolicyVote(x@),
            Body::DeviceLink(x) => BodyModel::DeviceLink(x@),
        }
    }
}

impl Clone for Body {
    fn clone(&self) -> (copy: Self)
        ensures
            copy@ == self@,
    {
        match self {
            Body::Profile(x) => Body::Profile(x.clone()),
            Body::Media(x) => Body::Media(x.clone()),
            Body::Post(x) => Body::Post(x.clone()),
            Body::Vote(x) => Body::Vote(x.clone()),
            Body::Follow(x) => Body::Follow(x.clone()),
            Body::StreamStart(x) => Body::StreamStart(x.clone()),
            Body::StreamSegment(x) => Body::StreamSegment(x.clone()),
            Body::StreamEnd(x) => Body::StreamEnd(x.clone()),
            Body::Document(x) => Body::Document(x.clone()),
            Body::BoardCreate(x) => Body::BoardCreate(x.clone()),
            Body::BanVote(x) => Body::BanVote(x.clone()),
            Body::PolicyProposal(x) => Body::PolicyProposal(x.clone()),
            Body::PolicyVote(x) => Body::PolicyVote(x.clone()),
            Body::DeviceLink(x) => Body::DeviceLink(x.clone()),
        }
    }
}

impl BodyModel {
    /// The short, stable name of the kind.
    pub open spec fn kind(self) -> Seq<char> {
        match self {
            BodyModel::Profile(_) => "profile"@,
            BodyModel::Media(_) => "media"@,
            BodyModel::Post(_) => "post"@,
            BodyModel::Vote(_) => "vote"@,
            BodyModel::Follow(_) => "follow"@,
            BodyModel::StreamStart(_) => "stream_start"@,
            BodyModel::StreamSegment(_) => "stream_segment"@,
            BodyModel::StreamEnd(_) => "stream_end"@,
            BodyModel::Document(_) => "document"@,
            BodyModel::BoardCreate(_) => "board_create"@,
            BodyModel::BanVote(_) => "ban_vote"@,
            BodyModel::PolicyProposal(_) => "policy_proposal"@,
            BodyModel::PolicyVote(_) => "policy_vote"@,
            BodyModel::DeviceLink(_) => "device_link"@,
        }
    }
}

impl Body {
    /// A short, stable discriminator (`"profile"`, `"post"`, ...).
    pub fn kind(&self) -> (kind: &'static str)
        ensures
            kind@ == self@.kind(),
    {
        match self {
            Body::Profile(_) => "profile",
            Body::Media(_) => "media",
            Body::Post(_) => "post",
            Body::Vote(_) => "vote",
            Body::Follow(_) => "follow",
            Body::StreamStart(_) => "stream_start",
            Body::StreamSegment(_) => "stream_segment",
            Body::StreamEnd(_) => "stream_end",
            Body::Document(_) => "document",
            Body::BoardCreate(_) => "board_create",
            Body::BanVote(_) => "ban_vote",
            Body::PolicyProposal(_) => "policy_proposal",
            Body::PolicyVote(_) => "policy_vote",
            Body::DeviceLink(_) => "device_link",
        }
    }
}

} // verus!
