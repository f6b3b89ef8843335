//! The read-model as mathematics: what a node has learned, and how one record changes it.
//!
//! Every component of the model is folded by a function of its own, so that what a record touches,
//! and what it leaves alone, can be read off directly.
use crate::ballot;
use crate::ballot::{Ballots, Mark};
use crate::model::{
    BoardPolicy, BodyModel, DeviceLinkModel, DocumentModel, MediaModel, PolicyProposalModel, PostModel, ProfileModel,
    StreamSegmentModel, StreamStartModel,
};
use crate::record::RecordModel;
use crate::stamp;
use vstd::prelude::*;

verus! {

/// A published profile, when it was last updated, and by which record.
#[verifier::ext_equal]
pub struct ProfileEntry {
    pub profile: ProfileModel,
    pub updated_ms: u64,
    pub id: Seq<char>,
}

/// What a device last said of its owner, when, and in which record.
#[verifier::ext_equal]
pub struct LinkEntry {
    pub link: DeviceLinkModel,
    pub updated_ms: u64,
    pub id: Seq<char>,
}

/// A registered media descriptor.
#[verifier::ext_equal]
pub struct MediaEntry {
    pub author: Seq<char>,
    pub created_ms: u64,
    pub media: MediaModel,
}

/// A stored post or comment.
#[verifier::ext_equal]
pub struct PostEntry {
    pub author: Seq<char>,
    pub created_ms: u64,
    pub post: PostModel,
}

/// A stored version of a document.
#[verifier::ext_equal]
pub struct DocumentEntry {
    pub author: Seq<char>,
    pub created_ms: u64,
    pub document: DocumentModel,
}

/// A stream that has started.
#[verifier::ext_equal]
pub struct StreamEntry {
    pub author: Seq<char>,
    pub created_ms: u64,
    pub start: StreamStartModel,
}

/// A segment with the stamp of its record.
#[verifier::ext_equal]
pub struct SegmentEntry {
    pub segment: StreamSegmentModel,
    pub at: u64,
    pub id: Seq<char>,
}

/// A recording with the stamp of its record.
#[verifier::ext_equal]
pub struct RecordingEntry {
    pub cid: Seq<char>,
    pub at: u64,
    pub id: Seq<char>,
}

/// What one author has published of a stream: its segments by sequence number, whether it has ended,
/// and its recording.
#[verifier::ext_equal]
pub struct PartsEntry {
    pub ended: bool,
    pub recording: Option<RecordingEntry>,
    pub segments: Map<u64, SegmentEntry>,
}

/// The parts of streams, by stream, then by author.
pub type Parts = Map<Seq<char>, Map<Seq<char>, PartsEntry>>;

/// A board's parameters and the claim that set them.
#[verifier::ext_equal]
pub struct BoardEntry {
    pub title: Seq<char>,
    pub description: Seq<char>,
    pub policy: BoardPolicy,
    pub created_ms: u64,
    pub claim: Seq<char>,
}

/// A policy proposal.
#[verifier::ext_equal]
pub struct ProposalEntry {
    pub author: Seq<char>,
    pub created_ms: u64,
    pub proposal: PolicyProposalModel,
}

/// Everything a node has learned from the records it has folded in.
#[verifier::ext_equal]
pub struct StateModel {
    /// Ids of all records folded in.
    pub seen: Set<Seq<char>>,
    /// Profiles by author.
    pub profiles: Map<Seq<char>, ProfileEntry>,
    /// Media descriptors by record id.
    pub media: Map<Seq<char>, MediaEntry>,
    /// Posts and comments by record id.
    pub posts: Map<Seq<char>, PostEntry>,
    /// Thread roots by board, in order of arrival.
    pub board_threads: Map<Seq<char>, Seq<Seq<char>>>,
    /// Direct replies by parent, in order of arrival.
    pub children: Map<Seq<char>, Seq<Seq<char>>>,
    /// Votes by target, then by voter.
    pub votes: Ballots,
    /// Follows by followee, then by follower.
    pub follows: Ballots,
    /// Streams by the id of their start record.
    pub streams: Map<Seq<char>, StreamEntry>,
    /// The parts of streams, whether or not the start has come.
    pub parts: Parts,
    /// Boards by name.
    pub boards: Map<Seq<char>, BoardEntry>,
    /// Ban votes by board, then by target, then by voter.
    pub ban_votes: Map<Seq<char>, Ballots>,
    /// Policy proposals by record id.
    pub proposals: Map<Seq<char>, ProposalEntry>,
    /// Policy votes by proposal, then by voter.
    pub policy_votes: Ballots,
    /// Links to an owner, by device.
    pub links: Map<Seq<char>, LinkEntry>,
    /// Versions of documents by record id.
    pub documents: Map<Seq<char>, DocumentEntry>,
}

/// The model of a node that has seen nothing.
pub open spec fn nothing() -> StateModel {
    StateModel {
        seen: Set::empty(),
        profiles: Map::empty(),
        media: Map::empty(),
        posts: Map::empty(),
        board_threads: Map::empty(),
        children: Map::empty(),
        votes: Map::empty(),
        follows: Map::empty(),
        streams: Map::empty(),
        parts: Map::empty(),
        boards: Map::empty(),
        ban_votes: Map::empty(),
        proposals: Map::empty(),
        policy_votes: Map::empty(),
        links: Map::empty(),
        documents: Map::empty(),
    }
}

/// A vote counts as one up, one down, or nothing, whatever its size.
pub open spec fn clamped(value: i8) -> i8 {
    if value > 1 {
        1
    } else if value < -1 {
        (-1int) as i8
    } else {
        value
    }
}

/// The mark of a yes-or-no vote.
pub open spec fn yes_no(support: bool) -> i8 {
    if support {
        1
    } else {
        (-1int) as i8
    }
}

/// The mark of a follow (`1`) or an unfollow (`0`).
pub open spec fn on_off(active: bool) -> i8 {
    if active {
        1
    } else {
        0
    }
}

/// The list under `key`; empty where there is none.
pub open spec fn list_at(lists: Map<Seq<char>, Seq<Seq<char>>>, key: Seq<char>) -> Seq<Seq<char>> {
    if lists.contains_key(key) {
        lists[key]
    } else {
        Seq::empty()
    }
}

/// The ballots under `key`; none where there are none.
pub open spec fn ballots_at(all: Map<Seq<char>, Ballots>, key: Seq<char>) -> Ballots {
    if all.contains_key(key) {
        all[key]
    } else {
        Map::empty()
    }
}

/// A profile is replaced only by one that is stamped later.
pub open spec fn profiles_step(profiles: Map<Seq<char>, ProfileEntry>, r: RecordModel) -> Map<Seq<char>, ProfileEntry> {
    match r.body {
        BodyModel::Profile(p) => if profiles.contains_key(r.author) && !stamp::before(
            profiles[r.author].updated_ms,
            profiles[r.author].id,
            r.created_ms,
            r.id,
        ) {
            profiles
        } else {
            profiles.insert(r.author, ProfileEntry { profile: p, updated_ms: r.created_ms, id: r.id })
        },
        _ => profiles,
    }
}

/// A media record is stored under its id.
pub open spec fn media_step(media: Map<Seq<char>, MediaEntry>, r: RecordModel) -> Map<Seq<char>, MediaEntry> {
    match r.body {
        BodyModel::Media(m) => media.insert(
            r.id,
            MediaEntry { author: r.author, created_ms: r.created_ms, media: m },
        ),
        _ => media,
    }
}

/// A post is stored under its id.
pub open spec fn posts_step(posts: Map<Seq<char>, PostEntry>, r: RecordModel) -> Map<Seq<char>, PostEntry> {
    match r.body {
        BodyModel::Post(p) => posts.insert(r.id, PostEntry { author: r.author, created_ms: r.created_ms, post: p }),
        _ => posts,
    }
}

/// A thread root joins the end of its board's list.
pub open spec fn threads_step(
    threads: Map<Seq<char>, Seq<Seq<char>>>,
    r: RecordModel,
) -> Map<Seq<char>, Seq<Seq<char>>> {
    match r.body {
        BodyModel::Post(p) => match p.parent {
            None => threads.insert(p.board, list_at(threads, p.board).push(r.id)),
            Some(_) => threads,
        },
        _ => threads,
    }
}

/// A comment joins the end of its parent's list.
pub open spec fn children_step(
    children: Map<Seq<char>, Seq<Seq<char>>>,
    r: RecordModel,
) -> Map<Seq<char>, Seq<Seq<char>>> {
    match r.body {
        BodyModel::Post(p) => match p.parent {
            None => children,
            Some(parent) => children.insert(parent, list_at(children, parent).push(r.id)),
        },
        _ => children,
    }
}

/// The author's latest vote on a target is the one that is stamped latest.
pub open spec fn votes_step(votes: Ballots, r: RecordModel) -> Ballots {
    match r.body {
        BodyModel::Vote(v) => ballot::ballots_step(
            votes,
            v.target,
            r.author,
            (Mark { value: clamped(v.value), at: r.created_ms, id: r.id }),
        ),
        _ => votes,
    }
}

/// The author's latest follow or unfollow of a user is the one that is stamped latest.
pub open spec fn follows_step(follows: Ballots, r: RecordModel) -> Ballots {
    match r.body {
        BodyModel::Follow(f) => ballot::ballots_step(
            follows,
            f.followee,
            r.author,
            (Mark { value: on_off(f.active), at: r.created_ms, id: r.id }),
        ),
        _ => follows,
    }
}

/// No parts.
pub open spec fn no_parts() -> PartsEntry {
    PartsEntry { ended: false, recording: None, segments: Map::empty() }
}

/// The parts of a stream by author; none where there are none.
pub open spec fn authors_at(parts: Parts, stream: Seq<char>) -> Map<Seq<char>, PartsEntry> {
    if parts.contains_key(stream) {
        parts[stream]
    } else {
        Map::empty()
    }
}

/// What one author has published of a stream; nothing where there is nothing.
pub open spec fn parts_by(by: Map<Seq<char>, PartsEntry>, author: Seq<char>) -> PartsEntry {
    if by.contains_key(author) {
        by[author]
    } else {
        no_parts()
    }
}

/// What one author has published of a stream.
pub open spec fn parts_at(parts: Parts, stream: Seq<char>, author: Seq<char>) -> PartsEntry {
    parts_by(authors_at(parts, stream), author)
}

/// The parts with one more segment: of the segments with one sequence number the one that is stamped
/// first is kept.
pub open spec fn extended(p: PartsEntry, s: SegmentEntry) -> PartsEntry {
    let seq = s.segment.seq;
    if p.segments.contains_key(seq) && !stamp::before(s.at, s.id, p.segments[seq].at, p.segments[seq].id) {
        p
    } else {
        PartsEntry { segments: p.segments.insert(seq, s), ..p }
    }
}

/// The parts once the stream has ended: of the recordings the one that is stamped last is kept.
pub open spec fn concluded(p: PartsEntry, recording: Option<RecordingEntry>) -> PartsEntry {
    PartsEntry {
        ended: true,
        recording: match (p.recording, recording) {
            (Some(held), Some(new)) => if stamp::before(held.at, held.id, new.at, new.id) {
                Some(new)
            } else {
                Some(held)
            },
            (None, new) => new,
            (held, None) => held,
        },
        ..p
    }
}

/// The recording that an end record names, with its stamp.
pub open spec fn recording_of(cid: Option<Seq<char>>, at: u64, id: Seq<char>) -> Option<RecordingEntry> {
    match cid {
        Some(cid) => Some(RecordingEntry { cid, at, id }),
        None => None,
    }
}

/// One author's parts of one stream, replaced.
pub open spec fn with_parts(parts: Parts, stream: Seq<char>, author: Seq<char>, p: PartsEntry) -> Parts {
    parts.insert(stream, authors_at(parts, stream).insert(author, p))
}

/// A stream starts once.
pub open spec fn streams_step(streams: Map<Seq<char>, StreamEntry>, r: RecordModel) -> Map<Seq<char>, StreamEntry> {
    match r.body {
        BodyModel::StreamStart(s) => if streams.contains_key(r.id) {
            streams
        } else {
            streams.insert(r.id, StreamEntry { author: r.author, created_ms: r.created_ms, start: s })
        },
        _ => streams,
    }
}

/// A segment or an end counts for its own author's part of the stream, whether or not the stream's start
/// has come.
pub open spec fn parts_step(parts: Parts, r: RecordModel) -> Parts {
    match r.body {
        BodyModel::StreamSegment(s) => with_parts(
            parts,
            s.stream,
            r.author,
            extended(
                parts_at(parts, s.stream, r.author),
                SegmentEntry { segment: s, at: r.created_ms, id: r.id },
            ),
        ),
        BodyModel::StreamEnd(e) => with_parts(
            parts,
            e.stream,
            r.author,
            concluded(
                parts_at(parts, e.stream, r.author),
                recording_of(e.recording_cid, r.created_ms, r.id),
            ),
        ),
        _ => parts,
    }
}

/// The first claim of a board name sets its parameters.
pub open spec fn boards_step(boards: Map<Seq<char>, BoardEntry>, r: RecordModel) -> Map<Seq<char>, BoardEntry> {
    match r.body {
        BodyModel::BoardCreate(b) => if boards.contains_key(b.board) && !stamp::before(
            r.created_ms,
            r.id,
            boards[b.board].created_ms,
            boards[b.board].claim,
        ) {
            boards
        } else {
            boards.insert(
                b.board,
                BoardEntry {
                    title: b.title,
                    description: b.description,
                    policy: b.policy,
                    created_ms: r.created_ms,
                    claim: r.id,
                },
            )
        },
        _ => boards,
    }
}

/// The author's latest ban vote on a user in a board is the one that is stamped latest.
pub open spec fn ban_votes_step(bans: Map<Seq<char>, Ballots>, r: RecordModel) -> Map<Seq<char>, Ballots> {
    match r.body {
        BodyModel::BanVote(b) => bans.insert(
            b.board,
            ballot::ballots_step(
                ballots_at(bans, b.board),
                b.target,
                r.author,
                (Mark { value: yes_no(b.support), at: r.created_ms, id: r.id }),
            ),
        ),
        _ => bans,
    }
}

/// A policy proposal is stored under its id.
pub open spec fn proposals_step(
    proposals: Map<Seq<char>, ProposalEntry>,
    r: RecordModel,
) -> Map<Seq<char>, ProposalEntry> {
    match r.body {
        BodyModel::PolicyProposal(p) => proposals.insert(
            r.id,
            ProposalEntry { author: r.author, created_ms: r.created_ms, proposal: p },
        ),
        _ => proposals,
    }
}

/// The author's latest vote on a proposal is the one that is stamped latest.
pub open spec fn policy_votes_step(votes: Ballots, r: RecordModel) -> Ballots {
    match r.body {
        BodyModel::PolicyVote(v) => ballot::ballots_step(
            votes,
            v.proposal,
            r.author,
            (Mark { value: yes_no(v.support), at: r.created_ms, id: r.id }),
        ),
        _ => votes,
    }
}

/// A device's link is replaced only by one that is stamped later.
pub open spec fn links_step(links: Map<Seq<char>, LinkEntry>, r: RecordModel) -> Map<Seq<char>, LinkEntry> {
    match r.body {
        BodyModel::DeviceLink(l) => if links.contains_key(r.author) && !stamp::before(
            links[r.author].updated_ms,
            links[r.author].id,
            r.created_ms,
            r.id,
        ) {
            links
        } else {
            links.insert(r.author, LinkEntry { link: l, updated_ms: r.created_ms, id: r.id })
        },
        _ => links,
    }
}

/// A version of a document is stored under its id.
pub open spec fn documents_step(
    documents: Map<Seq<char>, DocumentEntry>,
    r: RecordModel,
) -> Map<Seq<char>, DocumentEntry> {
    match r.body {
        BodyModel::Document(d) => documents.insert(
            r.id,
            DocumentEntry { author: r.author, created_ms: r.created_ms, document: d },
        ),
        _ => documents,
    }
}

/// The model after one record. A record whose id was seen before changes nothing.
pub open spec fn fold(m: StateModel, r: RecordModel) -> StateModel {
    if m.seen.contains(r.id) {
        m
    } else {
        StateModel {
            seen: m.seen.insert(r.id),
            profiles: profiles_step(m.profiles, r),
            media: media_step(m.media, r),
            posts: posts_step(m.posts, r),
            board_threads: threads_step(m.board_threads, r),
            children: children_step(m.children, r),
            votes: votes_step(m.votes, r),
            follows: follows_step(m.follows, r),
            streams: streams_step(m.streams, r),
            parts: parts_step(m.parts, r),
            boards: boards_step(m.boards, r),
            ban_votes: ban_votes_step(m.ban_votes, r),
            proposals: proposals_step(m.proposals, r),
            policy_votes: policy_votes_step(m.policy_votes, r),
            links: links_step(m.links, r),
            documents: documents_step(m.documents, r),
        }
    }
}

/// The model after a sequence of records.
pub open spec fn fold_all(m: StateModel, rs: Seq<RecordModel>) -> StateModel
    decreases rs.len(),
{
    if rs.len() == 0 {
        m
    } else {
        fold(fold_all(m, rs.drop_last()), rs.last())
    }
}

} // verus!
