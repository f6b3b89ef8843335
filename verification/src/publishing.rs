//! Publishing: what becomes of a request that writes, and whom it is open to.
use crate::double::Double;
use crate::engine;
use crate::engine::{Admission, WritePlan};
use crate::feed;
use crate::feed::{PostViewModel, SortBy};
use crate::governance;
use crate::history;
use crate::history::{says, Matter};
use crate::laws;
use crate::model::BodyModel;
use crate::playback;
use crate::proto::{
    BanVoteReq, BoardPutReq, DeviceLinkReq, DocPutReq, FeedReq, FollowReq, MediaPutReq, PolicyProposeReq,
    PolicyVoteReq, PostCreateReq, ProfilePutReq, StreamAppendReq, StreamEndReq, StreamStartReq, VoteReq,
};
use crate::reading;
use crate::readmodel;
use crate::readmodel::StateModel;
use crate::record::RecordModel;
use vstd::prelude::*;

verus! {

// ----- requests become records that say the same -----

/// The record carries the plan's body.
pub open spec fn carries(r: RecordModel, plan: WritePlan) -> bool {
    r.body == plan.body@
}

/// The plan places no bytes, on no node.
pub open spec fn places_nothing(plan: WritePlan) -> bool {
    plan.object_cids.deep_view().len() == 0 && plan.replicas == 0
}

/// The plan places the one object on as many nodes as were asked for, three where the number was left open.
pub open spec fn places(plan: WritePlan, cid: Seq<char>, asked: u32) -> bool {
    &&& plan.object_cids.deep_view().len() == 1
    &&& plan.object_cids.deep_view()[0] == cid
    &&& asked == 0 ==> plan.replicas == 3
    &&& asked > 0 ==> plan.replicas == asked
}

/// A post that was asked for is shown as it was asked for, under the name of its author.
pub proof fn law_a_post_request_is_shown(m: StateModel, req: PostCreateReq, plan: WritePlan, r: RecordModel)
    requires
        engine::post_create_plan(req, plan),
        carries(r, plan),
        !m.seen.contains(r.id),
    ensures
        ({
            let after = readmodel::fold(m, r);
            let v = feed::post_view(after, r.id);
            &&& after.posts.dom().contains(r.id)
            &&& v.id == r.id
            &&& v.author == r.author
            &&& v.created_ms == r.created_ms
            &&& v.board == req.board@
            &&& v.parent == req.parent.deep_view()
            &&& v.title == req.title.deep_view()
            &&& v.body == req.body@
            &&& v.media == req.media.deep_view()
        }),
        places_nothing(plan),
{
}

/// A profile that was asked for is published as it was asked for.
pub proof fn law_a_profile_request_is_published(req: ProfilePutReq, plan: WritePlan, r: RecordModel)
    requires
        engine::profile_put_plan(req, plan),
        carries(r, plan),
    ensures
        r.body matches BodyModel::Profile(p) && p.handle == req.handle.deep_view() && p.display_name
            == req.display_name@ && p.bio == req.bio@ && p.avatar == req.avatar.deep_view() && p.links
            == req.links.deep_view() && p.devices == req.devices.deep_view(),
        places_nothing(plan),
{
}

/// Media that were asked for are published as they were asked for, and their bytes are placed.
pub proof fn law_a_media_request_is_published(m: StateModel, req: MediaPutReq, plan: WritePlan, r: RecordModel)
    requires
        engine::media_put_plan(req, plan),
        carries(r, plan),
        !m.seen.contains(r.id),
    ensures
        ({
            let after = readmodel::fold(m, r);
            let d = after.media[r.id].media;
            &&& after.media.dom().contains(r.id)
            &&& after.media[r.id].author == r.author
            &&& d.kind == req.kind
            &&& d.object_cid == req.object_cid@
            &&& d.mime == req.mime@
            &&& d.size == req.size
            &&& d.title == req.title@
            &&& d.duration_ms == req.duration_ms
            &&& d.width == req.width
            &&& d.height == req.height
            &&& d.thumbnail == req.thumbnail.deep_view()
            &&& d.extra == req.extra@
        }),
        places(plan, req.object_cid@, req.replicas),
{
}

/// A vote that was asked for says what was asked: for the target above zero, against it below, neither at
/// zero.
pub proof fn law_a_vote_request_says_so(req: VoteReq, plan: WritePlan, r: RecordModel)
    requires
        engine::vote_plan(req, plan),
        carries(r, plan),
    ensures
        req.value > 0 ==> says(r, Matter::Content { target: req.target@ }) == Some(1int),
        req.value < 0 ==> says(r, Matter::Content { target: req.target@ }) == Some(-1int),
        req.value == 0 ==> says(r, Matter::Content { target: req.target@ }) == Some(0int),
        places_nothing(plan),
{
}

/// A follow that was asked for says so of that user, and an unfollow takes it back.
pub proof fn law_a_follow_request_says_so(req: FollowReq, plan: WritePlan, r: RecordModel)
    requires
        engine::follow_plan(req, plan),
        carries(r, plan),
    ensures
        req.active ==> says(r, Matter::User { followee: req.followee@ }) == Some(1int),
        !req.active ==> says(r, Matter::User { followee: req.followee@ }) == Some(0int),
        places_nothing(plan),
{
}

/// A ban vote that was asked for says so of that user in that board.
pub proof fn law_a_ban_vote_request_says_so(req: BanVoteReq, plan: WritePlan, r: RecordModel)
    requires
        engine::ban_vote_plan(req, plan),
        carries(r, plan),
    ensures
        req.support ==> says(r, Matter::Ban { board: req.board@, target: req.target@ }) == Some(1int),
        !req.support ==> says(r, Matter::Ban { board: req.board@, target: req.target@ }) == Some(-1int),
        r.body matches BodyModel::BanVote(b) && b.reason == req.reason@,
        places_nothing(plan),
{
}

/// A policy vote that was asked for says so of that proposal.
pub proof fn law_a_policy_vote_request_says_so(req: PolicyVoteReq, plan: WritePlan, r: RecordModel)
    requires
        engine::policy_vote_plan(req, plan),
        carries(r, plan),
    ensures
        req.support ==> says(r, Matter::Proposal { proposal: req.proposal@ }) == Some(1int),
        !req.support ==> says(r, Matter::Proposal { proposal: req.proposal@ }) == Some(-1int),
        places_nothing(plan),
{
}

/// A proposal that was asked for is shown as it was asked for.
pub proof fn law_a_proposal_request_is_shown(m: StateModel, req: PolicyProposeReq, plan: WritePlan, r: RecordModel)
    requires
        engine::policy_propose_plan(req, plan),
        carries(r, plan),
        !m.seen.contains(r.id),
    ensures
        ({
            let after = readmodel::fold(m, r);
            let v = governance::proposal_view(after, r.id);
            &&& after.proposals.dom().contains(r.id)
            &&& v.author == r.author
            &&& v.created_ms == r.created_ms
            &&& v.board == req.board.deep_view()
            &&& v.title == req.title@
            &&& v.body == req.body@
        }),
        places_nothing(plan),
{
}

/// A board that was asked for is claimed with the parameters that were asked for.
pub proof fn law_a_board_request_claims_it(req: BoardPutReq, plan: WritePlan, r: RecordModel)
    requires
        engine::board_put_plan(req, plan),
        carries(r, plan),
    ensures
        history::claims(r, req.board@),
        r.body matches BodyModel::BoardCreate(b) && b.title == req.title@ && b.description == req.description@
            && b.policy == req.policy,
        places_nothing(plan),
{
}

/// A stream that was asked for is started as it was asked for.
pub proof fn law_a_stream_request_starts_it(m: StateModel, req: StreamStartReq, plan: WritePlan, r: RecordModel)
    requires
        laws::sound(m),
        engine::stream_start_plan(req, plan),
        carries(r, plan),
        !m.seen.contains(r.id),
    ensures
        ({
            let after = readmodel::fold(m, r);
            let s = after.streams[r.id].start;
            &&& after.streams.dom().contains(r.id)
            &&& after.streams[r.id].author == r.author
            &&& s.title == req.title@
            &&& s.kind == req.kind
            &&& s.board == req.board.deep_view()
            &&& s.thumbnail == req.thumbnail.deep_view()
            &&& s.extra == req.extra@
        }),
        places_nothing(plan),
{
    assert(!m.streams.contains_key(r.id));
}

/// A segment that was asked for is appended where it was asked for, and its bytes are placed.
pub proof fn law_a_segment_request_appends_it(req: StreamAppendReq, plan: WritePlan, r: RecordModel)
    requires
        engine::stream_append_plan(req, plan),
        carries(r, plan),
    ensures
        playback::appends(r, req.stream@, r.author, req.seq),
        r.body matches BodyModel::StreamSegment(s) && s.object_cid == req.object_cid@ && s.duration_ms
            == req.duration_ms,
        places(plan, req.object_cid@, req.replicas),
{
}

/// A stream's end that was asked for ends it, names the recording that was asked for, and places its bytes.
pub proof fn law_an_end_request_ends_the_stream(req: StreamEndReq, plan: WritePlan, r: RecordModel)
    requires
        engine::stream_end_plan(req, plan),
        carries(r, plan),
    ensures
        playback::ends(r, req.stream@, r.author),
        r.body->StreamEnd_0.recording_cid == req.recording_cid.deep_view(),
        req.recording_cid matches Some(cid) ==> places(plan, cid@, 0),
        req.recording_cid is None ==> plan.object_cids.deep_view().len() == 0 && plan.replicas == 3,
{
}

/// A document that was asked for is published as it was asked for, and the bytes of its file are placed.
pub proof fn law_a_document_request_is_shown(m: StateModel, req: DocPutReq, plan: WritePlan, r: RecordModel)
    requires
        engine::document_put_plan(req, plan),
        carries(r, plan),
        !m.seen.contains(r.id),
    ensures
        ({
            let after = readmodel::fold(m, r);
            let v = crate::documents::document_view(after, r.id);
            &&& after.documents.dom().contains(r.id)
            &&& v.author == r.author
            &&& v.created_ms == r.created_ms
            &&& v.document.title == req.title@
            &&& v.document.body == req.body@
            &&& v.document.file == req.file.deep_view()
            &&& v.document.refs == req.refs.deep_view()
            &&& v.document.board == req.board.deep_view()
            &&& v.document.series == req.series.deep_view()
            &&& v.document.prev == req.prev.deep_view()
        }),
        req.file matches Some(f) ==> places(plan, f.object_cid@, 0),
        req.file is None ==> places_nothing(plan),
{
}

/// A device that asks to be linked says so of the owner it asked for.
pub proof fn law_a_link_request_says_so(req: DeviceLinkReq, plan: WritePlan, r: RecordModel)
    requires
        engine::device_link_plan(req, plan),
        carries(r, plan),
    ensures
        r.body matches BodyModel::DeviceLink(l) && l.owner == req.owner@ && l.active == req.active,
        places_nothing(plan),
{
}

// ----- who may write -----

/// The admission is that of someone who may write to a board with this trust floor: refused with these words
/// exactly where the community has banned them, free where the floor is zero, and otherwise held to it.
pub open spec fn admits(m: StateModel, who: Seq<char>, board: Seq<char>, floor: Double, a: Admission) -> bool {
    &&& a is Banned <==> governance::banned_raw(m, board, who)
    &&& a matches Admission::Banned { reason } ==> reason@ == "the community has banned "@ + who + " from board '"@
        + board + "'"@
    &&& !(a is Banned) && floor.bits == 0 ==> a is Open
    &&& a matches Admission::NeedsTrust { floor: f } ==> f == floor
    &&& !(a is Banned) && !floor.negative() && floor.significand() > 0 && !floor.is_nan() ==> a is NeedsTrust
}

/// Posting in a board takes the trust that the board asks of those who post, and no ban.
pub proof fn law_posting_is_admitted(m: StateModel, who: Seq<char>, board: Seq<char>, a: Admission)
    requires
        engine::admission_is(m, who, board, governance::policy_of(m, board).min_trust_to_post, a),
    ensures
        admits(m, who, board, governance::board_view(m, board).policy.min_trust_to_post, a),
{
}

/// Voting on a ban in a board takes the trust that the board asks of those who vote, and no ban.
pub proof fn law_ban_voting_is_admitted(m: StateModel, who: Seq<char>, board: Seq<char>, a: Admission)
    requires
        engine::admission_is(m, who, board, governance::policy_of(m, board).min_trust_to_vote, a),
    ensures
        admits(m, who, board, governance::board_view(m, board).policy.min_trust_to_vote, a),
{
}

/// Voting on a post takes the trust that its board asks of those who vote, and no ban there; anything else
/// may be voted on freely.
pub proof fn law_voting_is_admitted(m: StateModel, who: Seq<char>, target: Seq<char>, a: Admission)
    requires
        engine::vote_admission_is(m, who, target, a),
    ensures
        m.posts.dom().contains(target) ==> admits(
            m,
            who,
            m.posts[target].post.board,
            governance::board_view(m, m.posts[target].post.board).policy.min_trust_to_vote,
            a,
        ),
        !m.posts.dom().contains(target) ==> a is Open,
{
}

/// Publishing a document in a board takes what posting there takes; outside any board it is free.
pub proof fn law_publishing_is_admitted(m: StateModel, who: Seq<char>, board: Option<Seq<char>>, a: Admission)
    requires
        engine::publish_admission_is(m, who, board, a),
    ensures
        board matches Some(b) ==> admits(m, who, b, governance::board_view(m, b).policy.min_trust_to_post, a),
        board is None ==> a is Open,
{
}

// ----- asking for a feed -----

/// A sort is named by its algorithm, in any case; any other name means the hot posts.
pub proof fn law_sorts_are_named(name: Seq<char>)
    ensures
        ({
            let lower = name.map_values(|c: char| feed::ascii_lower(c));
            let sort = feed::sort_named(lower);
            &&& sort == SortBy::New <==> lower == "new"@
            &&& sort == SortBy::Top <==> lower == "top"@
            &&& sort == SortBy::Best <==> lower == "best"@
            &&& sort == SortBy::Trending <==> lower == "trending"@
            &&& sort == SortBy::Rising <==> lower == "rising"@
            &&& sort == SortBy::Controversial <==> lower == "controversial"@ || lower == "contro"@
        }),
{
    reveal_strlit("new");
    reveal_strlit("top");
    reveal_strlit("best");
    reveal_strlit("trending");
    reveal_strlit("rising");
    reveal_strlit("controversial");
    reveal_strlit("contro");
    assert("new"@[0] == 'n' && "top"@[0] == 't');
    assert("new"@.len() == 3 && "top"@.len() == 3 && "best"@.len() == 4 && "trending"@.len() == 8 && "rising"@.len() == 6
        && "controversial"@.len() == 13 && "contro"@.len() == 6);
    assert("rising"@[0] == 'r' && "contro"@[0] == 'c');
}

/// The case of a sort's name makes no difference.
pub proof fn law_case_makes_no_difference(a: Seq<char>, b: Seq<char>)
    requires
        a.len() == b.len(),
        forall|i: int|
            0 <= i < a.len() ==> (#[trigger] a[i] == b[i] || ('A' <= a[i] <= 'Z' && b[i] as int == a[i] as int + 32) || (
            'A' <= b[i] <= 'Z' && a[i] as int == b[i] as int + 32)),
    ensures
        feed::sort_named(a.map_values(|c: char| feed::ascii_lower(c))) == feed::sort_named(
            b.map_values(|c: char| feed::ascii_lower(c)),
        ),
{
    let x = a.map_values(|c: char| feed::ascii_lower(c));
    let y = b.map_values(|c: char| feed::ascii_lower(c));
    assert forall|i: int| 0 <= i < a.len() implies x[i] == y[i] by {
        assert(a[i] == b[i] || ('A' <= a[i] <= 'Z' && b[i] as int == a[i] as int + 32) || ('A' <= b[i] <= 'Z'
            && a[i] as int == b[i] as int + 32));
    }
    assert(x =~= y);
}

/// A listing holds as many entries as were asked for, but never more than five hundred.
pub proof fn law_limits_are_capped(limit: nat)
    ensures
        engine::capped(limit as int) <= limit,
        engine::capped(limit as int) <= 500,
        engine::capped(limit as int) == limit || engine::capped(limit as int) == 500,
{
}

/// A feed request is answered with the best of what its scope names: the threads of its board, those of the
/// people whom its viewer follows, or, with any other scope, all threads; by the sort it names and up to the
/// limit it names, never more than five hundred.
pub proof fn law_feeds_keep_to_their_scope(
    m: StateModel,
    req: FeedReq,
    scores: Map<Seq<char>, i64>,
    posts: Seq<PostViewModel>,
)
    requires
        laws::sound(m),
        reading::all_scores_fit(m),
        engine::feed_is(m, req, scores, posts),
    ensures
        ({
            let sort = feed::sort_named(req.sort@.map_values(|c: char| feed::ascii_lower(c)));
            let limit = if req.limit < 500 {
                req.limit as int
            } else {
                500
            };
            let none = Seq::<char>::empty();
            &&& req.scope@ == "board"@ ==> reading::shows_best(
                m,
                reading::thread_of(
                    m,
                    if req.board is Some {
                        req.board->0@
                    } else {
                        none
                    },
                ),
                sort,
                scores,
                limit,
                posts,
            )
            &&& req.scope@ == "home"@ ==> reading::shows_best(
                m,
                reading::thread_followed(
                    m,
                    if req.viewer is Some {
                        req.viewer->0@
                    } else {
                        none
                    },
                ),
                sort,
                scores,
                limit,
                posts,
            )
            &&& req.scope@ != "board"@ && req.scope@ != "home"@ ==> reading::shows_best(
                m,
                reading::thread_anywhere(m),
                sort,
                scores,
                limit,
                posts,
            )
        }),
{
    reveal_strlit("board");
    reveal_strlit("home");
    assert("board"@.len() == 5 && "home"@.len() == 4);
    let sort = feed::sort_named(req.sort@.map_values(|c: char| feed::ascii_lower(c)));
    let limit = engine::capped(req.limit as int);
    let board = match req.board {
        Some(b) => b@,
        None => Seq::<char>::empty(),
    };
    let viewer = match req.viewer {
        Some(v) => v@,
        None => Seq::<char>::empty(),
    };
    if req.scope@ == "board"@ {
        reading::law_board_shows_its_best_threads(m, board, sort, scores, limit as nat);
    } else if req.scope@ == "home"@ {
        reading::law_home_feed_shows_whom_one_follows(m, viewer, sort, scores, limit as nat, posts);
    } else {
        reading::law_feed_shows_the_best_threads(m, sort, scores, limit as nat, posts);
    }
}

} // verus!
