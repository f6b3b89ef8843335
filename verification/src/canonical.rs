//! Canonical bytes: the one deterministic encoding of a record that is hashed to its id and signed.
//!
//! A record is laid out as its author, its time and its body; a body as the name of its kind and then
//! its fields in order.
use crate::codec;
use crate::model::{
    BanVote, BanVoteModel, BoardCreate, BoardCreateModel, BoardPolicy, Body, BodyModel, DeviceLink, DeviceLinkModel,
    Document, DocumentModel, Follow, FollowModel, Media, MediaKind, MediaModel, PolicyProposal, PolicyProposalModel,
    PolicyVote, PolicyVoteModel, Post, PostModel, Profile, ProfileModel, StreamEnd, StreamEndModel, StreamKind,
    StreamSegment, StreamSegmentModel, StreamStart, StreamStartModel, Vote, VoteModel,
};
use vstd::prelude::*;

verus! {

/// The index of a media kind.
pub open spec fn media_kind_index(k: MediaKind) -> u32 {
    match k {
        MediaKind::Image => 0,
        MediaKind::Video => 1,
        MediaKind::Audio => 2,
        MediaKind::Podcast => 3,
        MediaKind::Document => 4,
    }
}

/// The index of a media kind.
fn media_index(k: MediaKind) -> (index: u32)
    ensures
        index == media_kind_index(k),
{
    match k {
        MediaKind::Image => 0,
        MediaKind::Video => 1,
        MediaKind::Audio => 2,
        MediaKind::Podcast => 3,
        MediaKind::Document => 4,
    }
}

/// The index of a stream kind.
pub open spec fn stream_kind_index(k: StreamKind) -> u32 {
    match k {
        StreamKind::Video => 0,
        StreamKind::Audio => 1,
    }
}

/// The index of a stream kind.
fn stream_index(k: StreamKind) -> (index: u32)
    ensures
        index == stream_kind_index(k),
{
    match k {
        StreamKind::Video => 0,
        StreamKind::Audio => 1,
    }
}


/// The layout of board parameters; a real number is laid out as its 64-bit pattern.
pub open spec fn policy_bytes(v: BoardPolicy) -> Seq<u8> {
    codec::u64_bytes(v.grace_secs) + (codec::u64_bytes(v.ban_support.bits) + (codec::u32_bytes(v.ban_quorum)
        + (codec::u64_bytes(v.min_trust_to_post.bits) + codec::u64_bytes(v.min_trust_to_vote.bits))))
}

fn put_policy(out: &mut Vec<u8>, v: &BoardPolicy)
    ensures
        final(out)@ == old(out)@ + policy_bytes(*v),
{
    codec::put_u64(out, v.grace_secs);
    codec::put_u64(out, v.ban_support.bits);
    codec::put_u32(out, v.ban_quorum);
    codec::put_u64(out, v.min_trust_to_post.bits);
    codec::put_u64(out, v.min_trust_to_vote.bits);
    assert(out@ =~= old(out)@ + policy_bytes(*v));
}

proof fn lemma_policy(a: BoardPolicy, b: BoardPolicy)
    requires
        policy_bytes(a) == policy_bytes(b),
    ensures
        a == b,
{
    let a5 = codec::u64_bytes(a.min_trust_to_vote.bits);
    let b5 = codec::u64_bytes(b.min_trust_to_vote.bits);
    let a4 = codec::u64_bytes(a.min_trust_to_post.bits) + a5;
    let b4 = codec::u64_bytes(b.min_trust_to_post.bits) + b5;
    let a3 = codec::u32_bytes(a.ban_quorum) + a4;
    let b3 = codec::u32_bytes(b.ban_quorum) + b4;
    let a2 = codec::u64_bytes(a.ban_support.bits) + a3;
    let b2 = codec::u64_bytes(b.ban_support.bits) + b3;
    codec::lemma_u64(a.grace_secs, b.grace_secs, a2, b2);
    codec::lemma_u64(a.ban_support.bits, b.ban_support.bits, a3, b3);
    codec::lemma_u32(a.ban_quorum, b.ban_quorum, a4, b4);
    codec::lemma_u64(a.min_trust_to_post.bits, b.min_trust_to_post.bits, a5, b5);
    let none = Seq::<u8>::empty();
    assert(a5 + none =~= a5);
    assert(b5 + none =~= b5);
    codec::lemma_u64(a.min_trust_to_vote.bits, b.min_trust_to_vote.bits, none, none);
}

/// The layout of a [`Profile`].
pub open spec fn profile_bytes(v: ProfileModel) -> Seq<u8> {
    codec::opt_text_bytes(v.handle) + (codec::text_bytes(v.display_name) + (codec::text_bytes(v.bio)
        + (codec::opt_text_bytes(v.avatar) + (codec::links_bytes(v.links) + codec::texts_bytes(v.devices)))))
}

/// The lengths in a [`Profile`] fit their prefixes.
pub open spec fn profile_fits(v: ProfileModel) -> bool {
    &&& codec::opt_text_fits(v.handle)
    &&& codec::text_fits(v.display_name)
    &&& codec::text_fits(v.bio)
    &&& codec::opt_text_fits(v.avatar)
    &&& codec::links_fit(v.links)
    &&& codec::texts_fit(v.devices)
}

fn put_profile(out: &mut Vec<u8>, v: &Profile)
    ensures
        final(out)@ == old(out)@ + profile_bytes(v@),
{
    codec::put_opt_text(out, &v.handle);
    codec::put_text(out, &v.display_name);
    codec::put_text(out, &v.bio);
    codec::put_opt_media(out, &v.avatar);
    codec::put_links(out, &v.links);
    codec::put_texts(out, &v.devices);
    assert(out@ =~= old(out)@ + profile_bytes(v@));
}

proof fn lemma_profile(a: ProfileModel, b: ProfileModel)
    requires
        profile_fits(a),
        profile_fits(b),
        profile_bytes(a) == profile_bytes(b),
    ensures
        a == b,
{
    let a6 = codec::texts_bytes(a.devices);
    let b6 = codec::texts_bytes(b.devices);
    let a5 = codec::links_bytes(a.links) + a6;
    let b5 = codec::links_bytes(b.links) + b6;
    let a4 = codec::opt_text_bytes(a.avatar) + a5;
    let b4 = codec::opt_text_bytes(b.avatar) + b5;
    let a3 = codec::text_bytes(a.bio) + a4;
    let b3 = codec::text_bytes(b.bio) + b4;
    let a2 = codec::text_bytes(a.display_name) + a3;
    let b2 = codec::text_bytes(b.display_name) + b3;
    codec::lemma_opt_text(a.handle, b.handle, a2, b2);
    codec::lemma_text(a.display_name, b.display_name, a3, b3);
    codec::lemma_text(a.bio, b.bio, a4, b4);
    codec::lemma_opt_text(a.avatar, b.avatar, a5, b5);
    codec::lemma_links(a.links, b.links, a6, b6);
    let none = Seq::<u8>::empty();
    assert(a6 + none =~= a6);
    assert(b6 + none =~= b6);
    codec::lemma_texts(a.devices, b.devices, none, none);
}

/// The layout of what a [`Media`] says about its display.
pub open spec fn media_display_bytes(v: MediaModel) -> Seq<u8> {
    codec::opt_u64_bytes(v.duration_ms) + (codec::opt_u32_bytes(v.width) + (codec::opt_u32_bytes(v.height)
        + (codec::opt_text_bytes(v.thumbnail) + codec::extra_bytes(v.extra))))
}

/// The layout of a [`Media`].
pub open spec fn media_bytes(v: MediaModel) -> Seq<u8> {
    codec::u32_bytes(media_kind_index(v.kind)) + (codec::text_bytes(v.object_cid) + (codec::text_bytes(v.mime)
        + (codec::u64_bytes(v.size) + (codec::text_bytes(v.title) + media_display_bytes(v)))))
}

/// The lengths in a [`Media`] fit their prefixes.
pub open spec fn media_fits(v: MediaModel) -> bool {
    &&& codec::text_fits(v.object_cid)
    &&& codec::text_fits(v.mime)
    &&& codec::text_fits(v.title)
    &&& codec::opt_text_fits(v.thumbnail)
    &&& codec::extra_fits(v.extra)
}

fn put_media_display(out: &mut Vec<u8>, v: &Media)
    ensures
        final(out)@ == old(out)@ + media_display_bytes(v@),
{
    codec::put_opt_u64(out, v.duration_ms);
    codec::put_opt_u32(out, v.width);
    codec::put_opt_u32(out, v.height);
    codec::put_opt_media(out, &v.thumbnail);
    codec::put_extra(out, &v.extra);
    assert(out@ =~= old(out)@ + media_display_bytes(v@));
}

fn put_media(out: &mut Vec<u8>, v: &Media)
    ensures
        final(out)@ == old(out)@ + media_bytes(v@),
{
    codec::put_u32(out, media_index(v.kind));
    codec::put_text(out, &v.object_cid);
    codec::put_text(out, &v.mime);
    codec::put_u64(out, v.size);
    codec::put_text(out, &v.title);
    put_media_display(out, v);
    assert(out@ =~= old(out)@ + media_bytes(v@));
}

proof fn lemma_media(a: MediaModel, b: MediaModel)
    requires
        media_fits(a),
        media_fits(b),
        media_bytes(a) == media_bytes(b),
    ensures
        a == b,
{
    let a10 = codec::extra_bytes(a.extra);
    let b10 = codec::extra_bytes(b.extra);
    let a9 = codec::opt_text_bytes(a.thumbnail) + a10;
    let b9 = codec::opt_text_bytes(b.thumbnail) + b10;
    let a8 = codec::opt_u32_bytes(a.height) + a9;
    let b8 = codec::opt_u32_bytes(b.height) + b9;
    let a7 = codec::opt_u32_bytes(a.width) + a8;
    let b7 = codec::opt_u32_bytes(b.width) + b8;
    let a6 = codec::opt_u64_bytes(a.duration_ms) + a7;
    let b6 = codec::opt_u64_bytes(b.duration_ms) + b7;
    let a5 = codec::text_bytes(a.title) + a6;
    let b5 = codec::text_bytes(b.title) + b6;
    let a4 = codec::u64_bytes(a.size) + a5;
    let b4 = codec::u64_bytes(b.size) + b5;
    let a3 = codec::text_bytes(a.mime) + a4;
    let b3 = codec::text_bytes(b.mime) + b4;
    let a2 = codec::text_bytes(a.object_cid) + a3;
    let b2 = codec::text_bytes(b.object_cid) + b3;
    codec::lemma_u32(media_kind_index(a.kind), media_kind_index(b.kind), a2, b2);
    codec::lemma_text(a.object_cid, b.object_cid, a3, b3);
    codec::lemma_text(a.mime, b.mime, a4, b4);
    codec::lemma_u64(a.size, b.size, a5, b5);
    codec::lemma_text(a.title, b.title, a6, b6);
    codec::lemma_opt_u64(a.duration_ms, b.duration_ms, a7, b7);
    codec::lemma_opt_u32(a.width, b.width, a8, b8);
    codec::lemma_opt_u32(a.height, b.height, a9, b9);
    codec::lemma_opt_text(a.thumbnail, b.thumbnail, a10, b10);
    let none = Seq::<u8>::empty();
    assert(a10 + none =~= a10);
    assert(b10 + none =~= b10);
    codec::lemma_extra(a.extra, b.extra, none, none);
}

/// The layout of a [`Post`].
pub open spec fn post_bytes(v: PostModel) -> Seq<u8> {
    codec::text_bytes(v.board) + (codec::opt_text_bytes(v.parent) + (codec::opt_text_bytes(v.title)
        + (codec::text_bytes(v.body) + codec::texts_bytes(v.media))))
}

/// The lengths in a [`Post`] fit their prefixes.
pub open spec fn post_fits(v: PostModel) -> bool {
    &&& codec::text_fits(v.board)
    &&& codec::opt_text_fits(v.parent)
    &&& codec::opt_text_fits(v.title)
    &&& codec::text_fits(v.body)
    &&& codec::texts_fit(v.media)
}

fn put_post(out: &mut Vec<u8>, v: &Post)
    ensures
        final(out)@ == old(out)@ + post_bytes(v@),
{
    codec::put_text(out, &v.board);
    codec::put_opt_text(out, &v.parent);
    codec::put_opt_text(out, &v.title);
    codec::put_text(out, &v.body);
    codec::put_media_refs(out, &v.media);
    assert(out@ =~= old(out)@ + post_bytes(v@));
}

proof fn lemma_post(a: PostModel, b: PostModel)
    requires
        post_fits(a),
        post_fits(b),
        post_bytes(a) == post_bytes(b),
    ensures
        a == b,
{
    let a5 = codec::texts_bytes(a.media);
    let b5 = codec::texts_bytes(b.media);
    let a4 = codec::text_bytes(a.body) + a5;
    let b4 = codec::text_bytes(b.body) + b5;
    let a3 = codec::opt_text_bytes(a.title) + a4;
    let b3 = codec::opt_text_bytes(b.title) + b4;
    let a2 = codec::opt_text_bytes(a.parent) + a3;
    let b2 = codec::opt_text_bytes(b.parent) + b3;
    codec::lemma_text(a.board, b.board, a2, b2);
    codec::lemma_opt_text(a.parent, b.parent, a3, b3);
    codec::lemma_opt_text(a.title, b.title, a4, b4);
    codec::lemma_text(a.body, b.body, a5, b5);
    let none = Seq::<u8>::empty();
    assert(a5 + none =~= a5);
    assert(b5 + none =~= b5);
    codec::lemma_texts(a.media, b.media, none, none);
}

/// The layout of a [`Vote`].
pub open spec fn vote_bytes(v: VoteModel) -> Seq<u8> {
    codec::text_bytes(v.target) + codec::i8_bytes(v.value)
}

/// The lengths in a [`Vote`] fit their prefixes.
pub open spec fn vote_fits(v: VoteModel) -> bool {
    &&& codec::text_fits(v.target)
}

fn put_vote(out: &mut Vec<u8>, v: &Vote)
    ensures
        final(out)@ == old(out)@ + vote_bytes(v@),
{
    codec::put_text(out, &v.target);
    codec::put_i8(out, v.value);
    assert(out@ =~= old(out)@ + vote_bytes(v@));
}

proof fn lemma_vote(a: VoteModel, b: VoteModel)
    requires
        vote_fits(a),
        vote_fits(b),
        vote_bytes(a) == vote_bytes(b),
    ensures
        a == b,
{
    let a2 = codec::i8_bytes(a.value);
    let b2 = codec::i8_bytes(b.value);
    codec::lemma_text(a.target, b.target, a2, b2);
    let none = Seq::<u8>::empty();
    assert(a2 + none =~= a2);
    assert(b2 + none =~= b2);
    codec::lemma_i8(a.value, b.value, none, none);
}

/// The layout of a [`Follow`].
pub open spec fn follow_bytes(v: FollowModel) -> Seq<u8> {
    codec::text_bytes(v.followee) + codec::flag_bytes(v.active)
}

/// The lengths in a [`Follow`] fit their prefixes.
pub open spec fn follow_fits(v: FollowModel) -> bool {
    &&& codec::text_fits(v.followee)
}

fn put_follow(out: &mut Vec<u8>, v: &Follow)
    ensures
        final(out)@ == old(out)@ + follow_bytes(v@),
{
    codec::put_text(out, &v.followee);
    codec::put_flag(out, v.active);
    assert(out@ =~= old(out)@ + follow_bytes(v@));
}

proof fn lemma_follow(a: FollowModel, b: FollowModel)
    requires
        follow_fits(a),
        follow_fits(b),
        follow_bytes(a) == follow_bytes(b),
    ensures
        a == b,
{
    let a2 = codec::flag_bytes(a.active);
    let b2 = codec::flag_bytes(b.active);
    codec::lemma_text(a.followee, b.followee, a2, b2);
    let none = Seq::<u8>::empty();
    assert(a2 + none =~= a2);
    assert(b2 + none =~= b2);
    codec::lemma_flag(a.active, b.active, none, none);
}

/// The layout of a [`StreamStart`].
pub open spec fn stream_start_bytes(v: StreamStartModel) -> Seq<u8> {
    codec::text_bytes(v.title) + (codec::u32_bytes(stream_kind_index(v.kind))
        + (codec::opt_text_bytes(v.board) + (codec::opt_text_bytes(v.thumbnail)
        + codec::extra_bytes(v.extra))))
}

/// The lengths in a [`StreamStart`] fit their prefixes.
pub open spec fn stream_start_fits(v: StreamStartModel) -> bool {
    &&& codec::text_fits(v.title)
    &&& codec::opt_text_fits(v.board)
    &&& codec::opt_text_fits(v.thumbnail)
    &&& codec::extra_fits(v.extra)
}

fn put_stream_start(out: &mut Vec<u8>, v: &StreamStart)
    ensures
        final(out)@ == old(out)@ + stream_start_bytes(v@),
{
    codec::put_text(out, &v.title);
    codec::put_u32(out, stream_index(v.kind));
    codec::put_opt_text(out, &v.board);
    codec::put_opt_media(out, &v.thumbnail);
    codec::put_extra(out, &v.extra);
    assert(out@ =~= old(out)@ + stream_start_bytes(v@));
}

proof fn lemma_stream_start(a: StreamStartModel, b: StreamStartModel)
    requires
        stream_start_fits(a),
        stream_start_fits(b),
        stream_start_bytes(a) == stream_start_bytes(b),
    ensures
        a == b,
{
    let a5 = codec::extra_bytes(a.extra);
    let b5 = codec::extra_bytes(b.extra);
    let a4 = codec::opt_text_bytes(a.thumbnail) + a5;
    let b4 = codec::opt_text_bytes(b.thumbnail) + b5;
    let a3 = codec::opt_text_bytes(a.board) + a4;
    let b3 = codec::opt_text_bytes(b.board) + b4;
    let a2 = codec::u32_bytes(stream_kind_index(a.kind)) + a3;
    let b2 = codec::u32_bytes(stream_kind_index(b.kind)) + b3;
    codec::lemma_text(a.title, b.title, a2, b2);
    codec::lemma_u32(stream_kind_index(a.kind), stream_kind_index(b.kind), a3, b3);
    codec::lemma_opt_text(a.board, b.board, a4, b4);
    codec::lemma_opt_text(a.thumbnail, b.thumbnail, a5, b5);
    let none = Seq::<u8>::empty();
    assert(a5 + none =~= a5);
    assert(b5 + none =~= b5);
    codec::lemma_extra(a.extra, b.extra, none, none);
}

/// The layout of a [`StreamSegment`].
pub open spec fn stream_segment_bytes(v: StreamSegmentModel) -> Seq<u8> {
    codec::text_bytes(v.stream) + (codec::u64_bytes(v.seq) + (codec::text_bytes(v.object_cid)
        + codec::u64_bytes(v.duration_ms)))
}

/// The lengths in a [`StreamSegment`] fit their prefixes.
pub open spec fn stream_segment_fits(v: StreamSegmentModel) -> bool {
    &&& codec::text_fits(v.stream)
    &&& codec::text_fits(v.object_cid)
}

fn put_stream_segment(out: &mut Vec<u8>, v: &StreamSegment)
    ensures
        final(out)@ == old(out)@ + stream_segment_bytes(v@),
{
    codec::put_text(out, &v.stream);
    codec::put_u64(out, v.seq);
    codec::put_text(out, &v.object_cid);
    codec::put_u64(out, v.duration_ms);
    assert(out@ =~= old(out)@ + stream_segment_bytes(v@));
}

proof fn lemma_stream_segment(a: StreamSegmentModel, b: StreamSegmentModel)
    requires
        stream_segment_fits(a),
        stream_segment_fits(b),
        stream_segment_bytes(a) == stream_segment_bytes(b),
    ensures
        a == b,
{
    let a4 = codec::u64_bytes(a.duration_ms);
    let b4 = codec::u64_bytes(b.duration_ms);
    let a3 = codec::text_bytes(a.object_cid) + a4;
    let b3 = codec::text_bytes(b.object_cid) + b4;
    let a2 = codec::u64_bytes(a.seq) + a3;
    let b2 = codec::u64_bytes(b.seq) + b3;
    codec::lemma_text(a.stream, b.stream, a2, b2);
    codec::lemma_u64(a.seq, b.seq, a3, b3);
    codec::lemma_text(a.object_cid, b.object_cid, a4, b4);
    let none = Seq::<u8>::empty();
    assert(a4 + none =~= a4);
    assert(b4 + none =~= b4);
    codec::lemma_u64(a.duration_ms, b.duration_ms, none, none);
}

/// The layout of a [`StreamEnd`].
pub open spec fn stream_end_bytes(v: StreamEndModel) -> Seq<u8> {
    codec::text_bytes(v.stream) + codec::opt_text_bytes(v.recording_cid)
}

/// The lengths in a [`StreamEnd`] fit their prefixes.
pub open spec fn stream_end_fits(v: StreamEndModel) -> bool {
    &&& codec::text_fits(v.stream)
    &&& codec::opt_text_fits(v.recording_cid)
}

fn put_stream_end(out: &mut Vec<u8>, v: &StreamEnd)
    ensures
        final(out)@ == old(out)@ + stream_end_bytes(v@),
{
    codec::put_text(out, &v.stream);
    codec::put_opt_text(out, &v.recording_cid);
    assert(out@ =~= old(out)@ + stream_end_bytes(v@));
}

proof fn lemma_stream_end(a: StreamEndModel, b: StreamEndModel)
    requires
        stream_end_fits(a),
        stream_end_fits(b),
        stream_end_bytes(a) == stream_end_bytes(b),
    ensures
        a == b,
{
    let a2 = codec::opt_text_bytes(a.recording_cid);
    let b2 = codec::opt_text_bytes(b.recording_cid);
    codec::lemma_text(a.stream, b.stream, a2, b2);
    let none = Seq::<u8>::empty();
    assert(a2 + none =~= a2);
    assert(b2 + none =~= b2);
    codec::lemma_opt_text(a.recording_cid, b.recording_cid, none, none);
}

/// The layout of a [`Document`].
pub open spec fn document_bytes(v: DocumentModel) -> Seq<u8> {
    codec::text_bytes(v.title) + (codec::text_bytes(v.body) + (codec::opt_file_bytes(v.file)
        + (codec::refs_bytes(v.refs) + (codec::opt_text_bytes(v.board) + (codec::opt_text_bytes(v.series)
        + codec::opt_text_bytes(v.prev))))))
}

/// The lengths in a [`Document`] fit their prefixes.
pub open spec fn document_fits(v: DocumentModel) -> bool {
    &&& codec::text_fits(v.title)
    &&& codec::text_fits(v.body)
    &&& codec::opt_file_fits(v.file)
    &&& codec::refs_fit(v.refs)
    &&& codec::opt_text_fits(v.board)
    &&& codec::opt_text_fits(v.series)
    &&& codec::opt_text_fits(v.prev)
}

fn put_document(out: &mut Vec<u8>, v: &Document)
    ensures
        final(out)@ == old(out)@ + document_bytes(v@),
{
    codec::put_text(out, &v.title);
    codec::put_text(out, &v.body);
    codec::put_opt_file(out, &v.file);
    codec::put_refs(out, &v.refs);
    codec::put_opt_text(out, &v.board);
    codec::put_opt_text(out, &v.series);
    codec::put_opt_text(out, &v.prev);
    assert(out@ =~= old(out)@ + document_bytes(v@));
}

proof fn lemma_document(a: DocumentModel, b: DocumentModel)
    requires
        document_fits(a),
        document_fits(b),
        document_bytes(a) == document_bytes(b),
    ensures
        a == b,
{
    let a7 = codec::opt_text_bytes(a.prev);
    let b7 = codec::opt_text_bytes(b.prev);
    let a6 = codec::opt_text_bytes(a.series) + a7;
    let b6 = codec::opt_text_bytes(b.series) + b7;
    let a5 = codec::opt_text_bytes(a.board) + a6;
    let b5 = codec::opt_text_bytes(b.board) + b6;
    let a4 = codec::refs_bytes(a.refs) + a5;
    let b4 = codec::refs_bytes(b.refs) + b5;
    let a3 = codec::opt_file_bytes(a.file) + a4;
    let b3 = codec::opt_file_bytes(b.file) + b4;
    let a2 = codec::text_bytes(a.body) + a3;
    let b2 = codec::text_bytes(b.body) + b3;
    codec::lemma_text(a.title, b.title, a2, b2);
    codec::lemma_text(a.body, b.body, a3, b3);
    codec::lemma_opt_file(a.file, b.file, a4, b4);
    codec::lemma_refs(a.refs, b.refs, a5, b5);
    codec::lemma_opt_text(a.board, b.board, a6, b6);
    codec::lemma_opt_text(a.series, b.series, a7, b7);
    let none = Seq::<u8>::empty();
    assert(a7 + none =~= a7);
    assert(b7 + none =~= b7);
    codec::lemma_opt_text(a.prev, b.prev, none, none);
}

/// The layout of a [`BoardCreate`].
pub open spec fn board_create_bytes(v: BoardCreateModel) -> Seq<u8> {
    codec::text_bytes(v.board) + (codec::text_bytes(v.title) + (codec::text_bytes(v.description)
        + policy_bytes(v.policy)))
}

/// The lengths in a [`BoardCreate`] fit their prefixes.
pub open spec fn board_create_fits(v: BoardCreateModel) -> bool {
    &&& codec::text_fits(v.board)
    &&& codec::text_fits(v.title)
    &&& codec::text_fits(v.description)
}

fn put_board_create(out: &mut Vec<u8>, v: &BoardCreate)
    ensures
        final(out)@ == old(out)@ + board_create_bytes(v@),
{
    codec::put_text(out, &v.board);
    codec::put_text(out, &v.title);
    codec::put_text(out, &v.description);
    put_policy(out, &v.policy);
    assert(out@ =~= old(out)@ + board_create_bytes(v@));
}

proof fn lemma_board_create(a: BoardCreateModel, b: BoardCreateModel)
    requires
        board_create_fits(a),
        board_create_fits(b),
        board_create_bytes(a) == board_create_bytes(b),
    ensures
        a == b,
{
    let a4 = policy_bytes(a.policy);
    let b4 = policy_bytes(b.policy);
    let a3 = codec::text_bytes(a.description) + a4;
    let b3 = codec::text_bytes(b.description) + b4;
    let a2 = codec::text_bytes(a.title) + a3;
    let b2 = codec::text_bytes(b.title) + b3;
    codec::lemma_text(a.board, b.board, a2, b2);
    codec::lemma_text(a.title, b.title, a3, b3);
    codec::lemma_text(a.description, b.description, a4, b4);
    lemma_policy(a.policy, b.policy);
}

/// The layout of a [`BanVote`].
pub open spec fn ban_vote_bytes(v: BanVoteModel) -> Seq<u8> {
    codec::text_bytes(v.board) + (codec::text_bytes(v.target) + (codec::flag_bytes(v.support)
        + codec::text_bytes(v.reason)))
}

/// The lengths in a [`BanVote`] fit their prefixes.
pub open spec fn ban_vote_fits(v: BanVoteModel) -> bool {
    &&& codec::text_fits(v.board)
    &&& codec::text_fits(v.target)
    &&& codec::text_fits(v.reason)
}

fn put_ban_vote(out: &mut Vec<u8>, v: &BanVote)
    ensures
        final(out)@ == old(out)@ + ban_vote_bytes(v@),
{
    codec::put_text(out, &v.board);
    codec::put_text(out, &v.target);
    codec::put_flag(out, v.support);
    codec::put_text(out, &v.reason);
    assert(out@ =~= old(out)@ + ban_vote_bytes(v@));
}

proof fn lemma_ban_vote(a: BanVoteModel, b: BanVoteModel)
    requires
        ban_vote_fits(a),
        ban_vote_fits(b),
        ban_vote_bytes(a) == ban_vote_bytes(b),
    ensures
        a == b,
{
    let a4 = codec::text_bytes(a.reason);
    let b4 = codec::text_bytes(b.reason);
    let a3 = codec::flag_bytes(a.support) + a4;
    let b3 = codec::flag_bytes(b.support) + b4;
    let a2 = codec::text_bytes(a.target) + a3;
    let b2 = codec::text_bytes(b.target) + b3;
    codec::lemma_text(a.board, b.board, a2, b2);
    codec::lemma_text(a.target, b.target, a3, b3);
    codec::lemma_flag(a.support, b.support, a4, b4);
    let none = Seq::<u8>::empty();
    assert(a4 + none =~= a4);
    assert(b4 + none =~= b4);
    codec::lemma_text(a.reason, b.reason, none, none);
}

/// The layout of a [`PolicyProposal`].
pub open spec fn policy_proposal_bytes(v: PolicyProposalModel) -> Seq<u8> {
    codec::opt_text_bytes(v.board) + (codec::text_bytes(v.title) + codec::text_bytes(v.body))
}

/// The lengths in a [`PolicyProposal`] fit their prefixes.
pub open spec fn policy_proposal_fits(v: PolicyProposalModel) -> bool {
    &&& codec::opt_text_fits(v.board)
    &&& codec::text_fits(v.title)
    &&& codec::text_fits(v.body)
}

fn put_policy_proposal(out: &mut Vec<u8>, v: &PolicyProposal)
    ensures
        final(out)@ == old(out)@ + policy_proposal_bytes(v@),
{
    codec::put_opt_text(out, &v.board);
    codec::put_text(out, &v.title);
    codec::put_text(out, &v.body);
    assert(out@ =~= old(out)@ + policy_proposal_bytes(v@));
}

proof fn lemma_policy_proposal(a: PolicyProposalModel, b: PolicyProposalModel)
    requires
        policy_proposal_fits(a),
        policy_proposal_fits(b),
        policy_proposal_bytes(a) == policy_proposal_bytes(b),
    ensures
        a == b,
{
    let a3 = codec::text_bytes(a.body);
    let b3 = codec::text_bytes(b.body);
    let a2 = codec::text_bytes(a.title) + a3;
    let b2 = codec::text_bytes(b.title) + b3;
    codec::lemma_opt_text(a.board, b.board, a2, b2);
    codec::lemma_text(a.title, b.title, a3, b3);
    let none = Seq::<u8>::empty();
    assert(a3 + none =~= a3);
    assert(b3 + none =~= b3);
    codec::lemma_text(a.body, b.body, none, none);
}

/// The layout of a [`PolicyVote`].
pub open spec fn policy_vote_bytes(v: PolicyVoteModel) -> Seq<u8> {
    codec::text_bytes(v.proposal) + codec::flag_bytes(v.support)
}

/// The lengths in a [`PolicyVote`] fit their prefixes.
pub open spec fn policy_vote_fits(v: PolicyVoteModel) -> bool {
    &&& codec::text_fits(v.proposal)
}

fn put_policy_vote(out: &mut Vec<u8>, v: &PolicyVote)
    ensures
        final(out)@ == old(out)@ + policy_vote_bytes(v@),
{
    codec::put_text(out, &v.proposal);
    codec::put_flag(out, v.support);
    assert(out@ =~= old(out)@ + policy_vote_bytes(v@));
}

proof fn lemma_policy_vote(a: PolicyVoteModel, b: PolicyVoteModel)
    requires
        policy_vote_fits(a),
        policy_vote_fits(b),
        policy_vote_bytes(a) == policy_vote_bytes(b),
    ensures
        a == b,
{
    let a2 = codec::flag_bytes(a.support);
    let b2 = codec::flag_bytes(b.support);
    codec::lemma_text(a.proposal, b.proposal, a2, b2);
    let none = Seq::<u8>::empty();
    assert(a2 + none =~= a2);
    assert(b2 + none =~= b2);
    codec::lemma_flag(a.support, b.support, none, none);
}

/// The layout of a [`DeviceLink`].
pub open spec fn device_link_bytes(v: DeviceLinkModel) -> Seq<u8> {
    codec::text_bytes(v.owner) + codec::flag_bytes(v.active)
}

/// The lengths in a [`DeviceLink`] fit their prefixes.
pub open spec fn device_link_fits(v: DeviceLinkModel) -> bool {
    &&& codec::text_fits(v.owner)
}

fn put_device_link(out: &mut Vec<u8>, v: &DeviceLink)
    ensures
        final(out)@ == old(out)@ + device_link_bytes(v@),
{
    codec::put_text(out, &v.owner);
    codec::put_flag(out, v.active);
    assert(out@ =~= old(out)@ + device_link_bytes(v@));
}

proof fn lemma_device_link(a: DeviceLinkModel, b: DeviceLinkModel)
    requires
        device_link_fits(a),
        device_link_fits(b),
        device_link_bytes(a) == device_link_bytes(b),
    ensures
        a == b,
{
    let a2 = codec::flag_bytes(a.active);
    let b2 = codec::flag_bytes(b.active);
    codec::lemma_text(a.owner, b.owner, a2, b2);
    let none = Seq::<u8>::empty();
    assert(a2 + none =~= a2);
    assert(b2 + none =~= b2);
    codec::lemma_flag(a.active, b.active, none, none);
}

/// The layout of the fields of a body.
pub open spec fn fields_bytes(b: BodyModel) -> Seq<u8> {
    match b {
        BodyModel::Profile(v) => profile_bytes(v),
        BodyModel::Media(v) => media_bytes(v),
        BodyModel::Post(v) => post_bytes(v),
        BodyModel::Vote(v) => vote_bytes(v),
        BodyModel::Follow(v) => follow_bytes(v),
        BodyModel::StreamStart(v) => stream_start_bytes(v),
        BodyModel::StreamSegment(v) => stream_segment_bytes(v),
        BodyModel::StreamEnd(v) => stream_end_bytes(v),
        BodyModel::Document(v) => document_bytes(v),
        BodyModel::BoardCreate(v) => board_create_bytes(v),
        BodyModel::BanVote(v) => ban_vote_bytes(v),
        BodyModel::PolicyProposal(v) => policy_proposal_bytes(v),
        BodyModel::PolicyVote(v) => policy_vote_bytes(v),
        BodyModel::DeviceLink(v) => device_link_bytes(v),
    }
}

/// The layout of a body: the name of its kind, then its fields.
pub open spec fn body_bytes(b: BodyModel) -> Seq<u8> {
    codec::text_bytes(b.kind()) + fields_bytes(b)
}

/// The lengths in a body fit their prefixes.
pub open spec fn body_fits(b: BodyModel) -> bool {
    match b {
        BodyModel::Profile(v) => profile_fits(v),
        BodyModel::Media(v) => media_fits(v),
        BodyModel::Post(v) => post_fits(v),
        BodyModel::Vote(v) => vote_fits(v),
        BodyModel::Follow(v) => follow_fits(v),
        BodyModel::StreamStart(v) => stream_start_fits(v),
        BodyModel::StreamSegment(v) => stream_segment_fits(v),
        BodyModel::StreamEnd(v) => stream_end_fits(v),
        BodyModel::Document(v) => document_fits(v),
        BodyModel::BoardCreate(v) => board_create_fits(v),
        BodyModel::BanVote(v) => ban_vote_fits(v),
        BodyModel::PolicyProposal(v) => policy_proposal_fits(v),
        BodyModel::PolicyVote(v) => policy_vote_fits(v),
        BodyModel::DeviceLink(v) => device_link_fits(v),
    }
}

fn put_body(out: &mut Vec<u8>, b: &Body)
    ensures
        final(out)@ == old(out)@ + body_bytes(b@),
{
    codec::put_text(out, b.kind());
    match b {
        Body::Profile(v) => put_profile(out, v),
        Body::Media(v) => put_media(out, v),
        Body::Post(v) => put_post(out, v),
        Body::Vote(v) => put_vote(out, v),
        Body::Follow(v) => put_follow(out, v),
        Body::StreamStart(v) => put_stream_start(out, v),
        Body::StreamSegment(v) => put_stream_segment(out, v),
        Body::StreamEnd(v) => put_stream_end(out, v),
        Body::Document(v) => put_document(out, v),
        Body::BoardCreate(v) => put_board_create(out, v),
        Body::BanVote(v) => put_ban_vote(out, v),
        Body::PolicyProposal(v) => put_policy_proposal(out, v),
        Body::PolicyVote(v) => put_policy_vote(out, v),
        Body::DeviceLink(v) => put_device_link(out, v),
    }
    assert(out@ =~= old(out)@ + body_bytes(b@));
}


/// The length and the first letter of the name of a kind.
spec fn kind_shape(b: BodyModel) -> (nat, char) {
    match b {
        BodyModel::Profile(_) => (7, 'p'),
        BodyModel::Media(_) => (5, 'm'),
        BodyModel::Post(_) => (4, 'p'),
        BodyModel::Vote(_) => (4, 'v'),
        BodyModel::Follow(_) => (6, 'f'),
        BodyModel::StreamStart(_) => (12, 's'),
        BodyModel::StreamSegment(_) => (14, 's'),
        BodyModel::StreamEnd(_) => (10, 's'),
        BodyModel::Document(_) => (8, 'd'),
        BodyModel::BoardCreate(_) => (12, 'b'),
        BodyModel::BanVote(_) => (8, 'b'),
        BodyModel::PolicyProposal(_) => (15, 'p'),
        BodyModel::PolicyVote(_) => (11, 'p'),
        BodyModel::DeviceLink(_) => (11, 'd'),
    }
}

proof fn lemma_kind_shape(b: BodyModel)
    ensures
        b.kind().len() == kind_shape(b).0,
        b.kind()[0] == kind_shape(b).1,
        vstd::utf8::is_ascii_chars(b.kind()),
{
    match b {
        BodyModel::Profile(_) => {
            reveal_strlit("profile");
        },
        BodyModel::Media(_) => {
            reveal_strlit("media");
        },
        BodyModel::Post(_) => {
            reveal_strlit("post");
        },
        BodyModel::Vote(_) => {
            reveal_strlit("vote");
        },
        BodyModel::Follow(_) => {
            reveal_strlit("follow");
        },
        BodyModel::StreamStart(_) => {
            reveal_strlit("stream_start");
        },
        BodyModel::StreamSegment(_) => {
            reveal_strlit("stream_segment");
        },
        BodyModel::StreamEnd(_) => {
            reveal_strlit("stream_end");
        },
        BodyModel::Document(_) => {
            reveal_strlit("document");
        },
        BodyModel::BoardCreate(_) => {
            reveal_strlit("board_create");
        },
        BodyModel::BanVote(_) => {
            reveal_strlit("ban_vote");
        },
        BodyModel::PolicyProposal(_) => {
            reveal_strlit("policy_proposal");
        },
        BodyModel::PolicyVote(_) => {
            reveal_strlit("policy_vote");
        },
        BodyModel::DeviceLink(_) => {
            reveal_strlit("device_link");
        },
    }
}

/// The names of two kinds are equal only for the same kind.
proof fn lemma_kinds(a: BodyModel, b: BodyModel)
    requires
        a.kind() == b.kind(),
    ensures
        kind_shape(a) == kind_shape(b),
{
    lemma_kind_shape(a);
    lemma_kind_shape(b);
}

/// The names of the kinds are short.
proof fn lemma_kind_fits(b: BodyModel)
    ensures
        codec::text_fits(b.kind()),
{
    lemma_kind_shape(b);
    vstd::utf8::is_ascii_chars_encode_utf8(b.kind());
}

/// A body can be read back.
proof fn lemma_body(a: BodyModel, b: BodyModel)
    requires
        body_fits(a),
        body_fits(b),
        body_bytes(a) == body_bytes(b),
    ensures
        a == b,
{
    lemma_kind_fits(a);
    lemma_kind_fits(b);
    codec::lemma_text(a.kind(), b.kind(), fields_bytes(a), fields_bytes(b));
    lemma_kinds(a, b);
    match (a, b) {
        (BodyModel::Profile(v), BodyModel::Profile(w)) => lemma_profile(v, w),
        (BodyModel::Media(v), BodyModel::Media(w)) => lemma_media(v, w),
        (BodyModel::Post(v), BodyModel::Post(w)) => lemma_post(v, w),
        (BodyModel::Vote(v), BodyModel::Vote(w)) => lemma_vote(v, w),
        (BodyModel::Follow(v), BodyModel::Follow(w)) => lemma_follow(v, w),
        (BodyModel::StreamStart(v), BodyModel::StreamStart(w)) => lemma_stream_start(v, w),
        (BodyModel::StreamSegment(v), BodyModel::StreamSegment(w)) => lemma_stream_segment(v, w),
        (BodyModel::StreamEnd(v), BodyModel::StreamEnd(w)) => lemma_stream_end(v, w),
        (BodyModel::Document(v), BodyModel::Document(w)) => lemma_document(v, w),
        (BodyModel::BoardCreate(v), BodyModel::BoardCreate(w)) => lemma_board_create(v, w),
        (BodyModel::BanVote(v), BodyModel::BanVote(w)) => lemma_ban_vote(v, w),
        (BodyModel::PolicyProposal(v), BodyModel::PolicyProposal(w)) => lemma_policy_proposal(v, w),
        (BodyModel::PolicyVote(v), BodyModel::PolicyVote(w)) => lemma_policy_vote(v, w),
        (BodyModel::DeviceLink(v), BodyModel::DeviceLink(w)) => lemma_device_link(v, w),
        _ => {},
    }
}

/// The canonical bytes of a record: author, time, body.
pub open spec fn canonical(author: Seq<char>, created_ms: u64, body: BodyModel) -> Seq<u8> {
    codec::text_bytes(author) + (codec::u64_bytes(created_ms) + body_bytes(body))
}

/// Canonical bytes tell records apart: two records with the same bytes have the same author, time and
/// body.
pub proof fn law_canonical_is_injective(
    author: Seq<char>,
    created_ms: u64,
    body: BodyModel,
    author2: Seq<char>,
    created_ms2: u64,
    body2: BodyModel,
)
    requires
        codec::text_fits(author),
        codec::text_fits(author2),
        body_fits(body),
        body_fits(body2),
        canonical(author, created_ms, body) == canonical(author2, created_ms2, body2),
    ensures
        author == author2,
        created_ms == created_ms2,
        body == body2,
{
    codec::lemma_text(
        author,
        author2,
        codec::u64_bytes(created_ms) + body_bytes(body),
        codec::u64_bytes(created_ms2) + body_bytes(body2),
    );
    codec::lemma_u64(created_ms, created_ms2, body_bytes(body), body_bytes(body2));
    lemma_body(body, body2);
}

/// Lay out a record's author, time and body.
pub fn encode(author: &str, created_ms: u64, body: &Body) -> (bytes: Vec<u8>)
    ensures
        bytes@ == canonical(author@, created_ms, body@),
{
    let mut out: Vec<u8> = Vec::new();
    codec::put_text(&mut out, author);
    codec::put_u64(&mut out, created_ms);
    put_body(&mut out, body);
    assert(out@ =~= canonical(author@, created_ms, body@));
    out
}

} // verus!
