//! Serving: what each operation of a node answers with.
use crate::dispatch;
use crate::dispatch::{Receipt, Request, Step};
use crate::documents;
use crate::engine;
use crate::feed;
use crate::governance;
use crate::laws;
use crate::listing;
use crate::model::{
    BanVoteModel, BodyModel, DeviceLinkModel, FollowModel, PolicyVoteModel, StreamEndModel, VoteModel,
};
use crate::people;
use crate::proto::Envelope;
use crate::publishing;
use crate::reading;
use crate::readmodel::StateModel;
use crate::service;
use crate::service::Route;
use crate::streams;
use vstd::prelude::*;

verus! {

/// The sort that a request names.
pub open spec fn sort_of(name: Seq<char>) -> feed::SortBy {
    feed::sort_named(name.map_values(|c: char| feed::ascii_lower(c)))
}

/// The limit that a request names, never more than five hundred.
pub open spec fn limit_of(limit: usize) -> int {
    if limit < 500 {
        limit as int
    } else {
        500
    }
}

/// A request to read is answered with what it asks for, and with nothing where there is none.
pub proof fn law_reads_are_answered(
    m: StateModel,
    author: Seq<char>,
    req: Request,
    scores: Map<Seq<char>, i64>,
    step: Step,
)
    requires
        laws::sound(m),
        reading::all_scores_fit(m),
        dispatch::step_is(m, author, req, scores, step),
    ensures
        match req {
            Request::ProfileGet(r) => {
                &&& step matches Step::Profile { profile, social, devices }
                &&& profile is Some <==> m.profiles.dom().contains(r.node_id@)
                &&& profile matches Some(v) ==> v.node_id@ == r.node_id@ && v.profile@ == m.profiles[r.node_id@].profile
                    && v.updated_ms == m.profiles[r.node_id@].updated_ms
                &&& people::social_is(m, r.node_id@, social)
                &&& devices.deep_view() == engine::device_list(r.node_id@, people::bound_devices(m, r.node_id@))
            },
            Request::Karma(r) => {
                &&& step matches Step::Karma { social, devices }
                &&& people::social_is(m, r.node_id@, social)
                &&& devices.deep_view() == engine::device_list(r.node_id@, people::bound_devices(m, r.node_id@))
            },
            Request::MediaGet(r) => {
                &&& step matches Step::Media { media }
                &&& media is Some <==> m.media.dom().contains(r.media_id@)
                &&& media matches Some(d) ==> d@ == m.media[r.media_id@].media
            },
            Request::PostGet(r) => {
                &&& step matches Step::Post { post }
                &&& post is Some <==> m.posts.dom().contains(r.id@)
                &&& post matches Some(v) ==> v@ == feed::post_view(m, r.id@)
            },
            Request::Threads(r) => {
                &&& step matches Step::Posts { posts }
                &&& reading::shows_best(
                    m,
                    reading::thread_of(m, r.board@),
                    sort_of(r.sort@),
                    scores,
                    limit_of(r.limit),
                    posts.deep_view(),
                )
            },
            Request::Comments(r) => {
                &&& step matches Step::Posts { posts }
                &&& listing::lists_comments(m, r.root@, posts.deep_view())
                &&& reading::siblings_in_order(posts.deep_view(), sort_of(r.sort@), scores)
                &&& reading::depth_first(posts.deep_view())
            },
            Request::Feed(r) => {
                &&& step matches Step::Posts { posts }
                &&& r.scope@ == "board"@ && r.board is Some ==> reading::shows_best(
                    m,
                    reading::thread_of(m, r.board->0@),
                    sort_of(r.sort@),
                    scores,
                    limit_of(r.limit),
                    posts.deep_view(),
                )
                &&& r.scope@ == "home"@ && r.viewer is Some ==> reading::shows_best(
                    m,
                    reading::thread_followed(m, r.viewer->0@),
                    sort_of(r.sort@),
                    scores,
                    limit_of(r.limit),
                    posts.deep_view(),
                )
                &&& r.scope@ != "board"@ && r.scope@ != "home"@ ==> reading::shows_best(
                    m,
                    reading::thread_anywhere(m),
                    sort_of(r.sort@),
                    scores,
                    limit_of(r.limit),
                    posts.deep_view(),
                )
            },
            Request::StreamGet(r) => {
                &&& step is Stream || (step is TooLong && !streams::duration_fits(m, r.id@))
                &&& step matches Step::Stream { stream } ==> (stream is Some <==> m.streams.dom().contains(r.id@)) && (
                stream matches Some(v) ==> streams::shows_stream(m, r.id@, v))
            },
            Request::StreamsLive => {
                &&& step is Streams || (step is TooLong && !streams::live_fit(m))
                &&& step matches Step::Streams { streams: shown } ==> streams::lists_live(m, shown@)
            },
            Request::BoardGet(r) => {
                &&& step matches Step::Board { board }
                &&& board@ == governance::board_view(m, r.board@)
            },
            Request::Boards => {
                &&& step matches Step::Boards { boards }
                &&& governance::lists_boards(m, boards@)
            },
            Request::BanStanding(r) => {
                &&& step matches Step::Standing { standing, ballots, policy }
                &&& governance::standing_is(m, r.board@, r.target@, standing)
                &&& people::weighs(m, r.board@, r.target@, ballots@)
                &&& policy == governance::board_view(m, r.board@).policy
            },
            Request::Proposals(r) => {
                &&& step matches Step::Proposals { proposals }
                &&& governance::lists_proposals(m, r.board.deep_view(), proposals@)
            },
            Request::ProposalGet(r) => {
                &&& step matches Step::Proposal { proposal }
                &&& proposal is Some <==> m.proposals.dom().contains(r.id@)
                &&& proposal matches Some(v) ==> v@ == governance::proposal_view(m, r.id@)
            },
            Request::DocGet(r) => {
                &&& step matches Step::Document { document }
                &&& document is Some <==> m.documents.dom().contains(r.id@)
                &&& document matches Some(v) ==> v@ == documents::document_view(m, r.id@)
            },
            Request::DocsBy(r) => {
                &&& step matches Step::Documents { documents: shown }
                &&& documents::shows_each(m, documents::written_by(m, r.author@), shown@)
                &&& forall|i: int, j: int|
                    0 <= i < j < shown@.len() ==> (#[trigger] shown@[i]).created_ms >= (#[trigger] shown@[j]).created_ms
            },
            Request::DocHistory(r) => {
                &&& step matches Step::Documents { documents: shown }
                &&& documents::shows_each(m, documents::versions(m, r.key@), shown@)
                &&& forall|i: int, j: int|
                    0 <= i < j < shown@.len() ==> (#[trigger] shown@[i]).created_ms <= (#[trigger] shown@[j]).created_ms
            },
            Request::DocLatest(r) => {
                &&& step matches Step::Document { document }
                &&& document matches Some(v) ==> documents::is_latest(m, r.key@, v)
                &&& document is None ==> documents::versions(m, r.key@).is_empty()
            },
            Request::DocDiff(r) => {
                &&& step matches Step::Diff { diff }
                &&& m.documents.dom().contains(r.from@) && m.documents.dom().contains(r.to@) ==> crate::diff::old_side(
                    diff.deep_view(),
                ) == crate::diff::lines_of(m.documents[r.from@].document.body) && crate::diff::new_side(
                    diff.deep_view(),
                ) == crate::diff::lines_of(m.documents[r.to@].document.body)
                &&& !(m.documents.dom().contains(r.from@) && m.documents.dom().contains(r.to@)) ==> diff.deep_view().len()
                    == 0
            },
            Request::Backlinks(r) => {
                &&& step matches Step::Uris { uris }
                &&& documents::lists_backlinks(m, r.id@, uris.deep_view())
            },
            Request::Replicate(r) => step matches Step::Replicate { req: taken } && taken == r,
            _ => step is Write,
        },
{
    match req {
        Request::Threads(r) => {
            reading::law_board_shows_its_best_threads(m, r.board@, sort_of(r.sort@), scores, limit_of(r.limit) as nat);
        },
        Request::Comments(r) => {
            listing::law_comment_listing(m, r.root@, sort_of(r.sort@), scores);
            reading::law_comments_are_a_tree_in_order(m, r.root@, sort_of(r.sort@), scores);
        },
        Request::Feed(r) => {
            if step is Posts {
                publishing::law_feeds_keep_to_their_scope(m, r, scores, step->Posts_posts.deep_view());
            }
        },
        Request::DocsBy(r) => {
            let shown = step->Documents_documents;
            let stamps = shown@.map_values(|v: documents::DocumentView| (v.created_ms, v.id@));
            assert forall|i: int, j: int| 0 <= i < j < shown@.len() implies (#[trigger] shown@[i]).created_ms >= (
            #[trigger] shown@[j]).created_ms by {
                assert(stamps[i].0 == shown@[i].created_ms && stamps[j].0 == shown@[j].created_ms);
                crate::archive::law_newest_come_first(stamps, j, i);
            }
        },
        Request::DocDiff(r) => {
            if m.documents.contains_key(r.from@) && m.documents.contains_key(r.to@) {
                crate::diff::law_diff_restores_both(
                    crate::diff::lines_of(m.documents[r.from@].document.body),
                    crate::diff::lines_of(m.documents[r.to@].document.body),
                );
            }
        },
        _ => {},
    }
}

/// A request to write leads to a record that says what was asked; what makes something new is answered with
/// its id, what only says something of what there is with success alone; and whoever a board may turn away is
/// held to its rules.
pub proof fn law_writes_say_what_was_asked(
    m: StateModel,
    author: Seq<char>,
    req: Request,
    scores: Map<Seq<char>, i64>,
    step: Step,
)
    requires
        dispatch::step_is(m, author, req, scores, step),
        step is Write,
    ensures
        ({
            let plan = step->Write_plan;
            let admission = step->Write_admission;
            let receipt = step->Write_receipt;
            match req {
                Request::ProfilePut(r) => admission is Open && receipt == Receipt::Id && engine::profile_put_plan(r, plan),
                Request::MediaPut(r) => admission is Open && receipt == Receipt::Id && engine::media_put_plan(r, plan),
                Request::PostCreate(r) => publishing::admits(
                    m,
                    author,
                    r.board@,
                    governance::board_view(m, r.board@).policy.min_trust_to_post,
                    admission,
                ) && receipt == Receipt::Id && engine::post_create_plan(r, plan),
                Request::Vote(r) => receipt == Receipt::Done && plan.body@ == BodyModel::Vote(
                    (VoteModel { target: r.target@, value: r.value }),
                ) && (m.posts.dom().contains(r.target@) ==> publishing::admits(
                    m,
                    author,
                    m.posts[r.target@].post.board,
                    governance::board_view(m, m.posts[r.target@].post.board).policy.min_trust_to_vote,
                    admission,
                )),
                Request::Follow(r) => admission is Open && receipt == Receipt::Done && plan.body@ == BodyModel::Follow(
                    (FollowModel { followee: r.followee@, active: r.active }),
                ),
                Request::StreamStart(r) => admission is Open && receipt == Receipt::Id && engine::stream_start_plan(
                    r,
                    plan,
                ),
                Request::StreamAppend(r) => admission is Open && receipt == Receipt::Id && engine::stream_append_plan(
                    r,
                    plan,
                ),
                Request::StreamEnd(r) => admission is Open && receipt == Receipt::Done && plan.body@
                    == BodyModel::StreamEnd(
                    (StreamEndModel { stream: r.stream@, recording_cid: r.recording_cid.deep_view() }),
                ),
                Request::BoardPut(r) => admission is Open && receipt == Receipt::Id && engine::board_put_plan(r, plan),
                Request::BanVote(r) => receipt == Receipt::Done && plan.body@ == BodyModel::BanVote(
                    (BanVoteModel { board: r.board@, target: r.target@, support: r.support, reason: r.reason@ }),
                ) && publishing::admits(
                    m,
                    author,
                    r.board@,
                    governance::board_view(m, r.board@).policy.min_trust_to_vote,
                    admission,
                ),
                Request::PolicyPropose(r) => admission is Open && receipt == Receipt::Id && engine::policy_propose_plan(
                    r,
                    plan,
                ),
                Request::PolicyVote(r) => admission is Open && receipt == Receipt::Done && plan.body@
                    == BodyModel::PolicyVote((PolicyVoteModel { proposal: r.proposal@, support: r.support })),
                Request::DocPut(r) => receipt == Receipt::Id && engine::document_put_plan(r, plan) && (r.board matches Some(
                    b,
                ) ==> publishing::admits(
                    m,
                    author,
                    b@,
                    governance::board_view(m, b@).policy.min_trust_to_post,
                    admission,
                )),
                Request::DeviceLink(r) => admission is Open && receipt == Receipt::Done && plan.body@
                    == BodyModel::DeviceLink((DeviceLinkModel { owner: r.owner@, active: r.active })),
                _ => false,
            }
        }),
{
}

/// Every topic means its own operation.
pub proof fn law_topics_mean_their_operation()
    ensures
        service::route_of("trana/profile/put/v1"@) == Route::ProfilePut,
        service::route_of("trana/profile/get/v1"@) == Route::ProfileGet,
        service::route_of("trana/media/put/v1"@) == Route::MediaPut,
        service::route_of("trana/media/get/v1"@) == Route::MediaGet,
        service::route_of("trana/post/create/v1"@) == Route::PostCreate,
        service::route_of("trana/post/get/v1"@) == Route::PostGet,
        service::route_of("trana/threads/v1"@) == Route::Threads,
        service::route_of("trana/comments/v1"@) == Route::Comments,
        service::route_of("trana/vote/v1"@) == Route::Vote,
        service::route_of("trana/follow/v1"@) == Route::Follow,
        service::route_of("trana/karma/v1"@) == Route::Karma,
        service::route_of("trana/stream/start/v1"@) == Route::StreamStart,
        service::route_of("trana/stream/append/v1"@) == Route::StreamAppend,
        service::route_of("trana/stream/end/v1"@) == Route::StreamEnd,
        service::route_of("trana/stream/get/v1"@) == Route::StreamGet,
        service::route_of("trana/streams/live/v1"@) == Route::StreamsLive,
        service::route_of("trana/replicate/v1"@) == Route::Replicate,
        service::route_of("trana/board/put/v1"@) == Route::BoardPut,
        service::route_of("trana/board/get/v1"@) == Route::BoardGet,
        service::route_of("trana/boards/v1"@) == Route::Boards,
        service::route_of("trana/feed/v1"@) == Route::Feed,
        service::route_of("trana/ban/vote/v1"@) == Route::Banvote,
        service::route_of("trana/ban/standing/v1"@) == Route::Banstanding,
        service::route_of("trana/policy/propose/v1"@) == Route::PolicyPropose,
        service::route_of("trana/policy/vote/v1"@) == Route::PolicyVote,
        service::route_of("trana/proposals/v1"@) == Route::Proposals,
        service::route_of("trana/proposal/get/v1"@) == Route::ProposalGet,
        service::route_of("trana/doc/put/v1"@) == Route::DocPut,
        service::route_of("trana/doc/get/v1"@) == Route::DocGet,
        service::route_of("trana/docs/by/v1"@) == Route::DocsBy,
        service::route_of("trana/doc/history/v1"@) == Route::DocHistory,
        service::route_of("trana/doc/latest/v1"@) == Route::DocLatest,
        service::route_of("trana/doc/diff/v1"@) == Route::DocDiff,
        service::route_of("trana/backlinks/v1"@) == Route::Backlinks,
        service::route_of("trana/device/link/v1"@) == Route::DeviceLink,
{
    let topics = crate::proto::RPC_TOPICS@;
    assert forall|i: int, j: int| 0 <= i < j < 35 implies (#[trigger] topics[i])@ != (#[trigger] topics[j])@ by {
        crate::proto::law_topics_are_unique(i, j);
    }
    assert(topics[0]@ == crate::proto::T_PROFILE_PUT@);
    assert(topics[1]@ == crate::proto::T_PROFILE_GET@);
    assert(topics[2]@ == crate::proto::T_MEDIA_PUT@);
    assert(topics[3]@ == crate::proto::T_MEDIA_GET@);
    assert(topics[4]@ == crate::proto::T_POST_CREATE@);
    assert(topics[5]@ == crate::proto::T_POST_GET@);
    assert(topics[6]@ == crate::proto::T_THREADS@);
    assert(topics[7]@ == crate::proto::T_COMMENTS@);
    assert(topics[8]@ == crate::proto::T_VOTE@);
    assert(topics[9]@ == crate::proto::T_FOLLOW@);
    assert(topics[10]@ == crate::proto::T_KARMA@);
    assert(topics[11]@ == crate::proto::T_STREAM_START@);
    assert(topics[12]@ == crate::proto::T_STREAM_APPEND@);
    assert(topics[13]@ == crate::proto::T_STREAM_END@);
    assert(topics[14]@ == crate::proto::T_STREAM_GET@);
    assert(topics[15]@ == crate::proto::T_STREAMS_LIVE@);
    assert(topics[16]@ == crate::proto::T_REPLICATE@);
    assert(topics[17]@ == crate::proto::T_BOARD_PUT@);
    assert(topics[18]@ == crate::proto::T_BOARD_GET@);
    assert(topics[19]@ == crate::proto::T_BOARDS@);
    assert(topics[20]@ == crate::proto::T_FEED@);
    assert(topics[21]@ == crate::proto::T_BANVOTE@);
    assert(topics[22]@ == crate::proto::T_BANSTANDING@);
    assert(topics[23]@ == crate::proto::T_POLICY_PROPOSE@);
    assert(topics[24]@ == crate::proto::T_POLICY_VOTE@);
    assert(topics[25]@ == crate::proto::T_PROPOSALS@);
    assert(topics[26]@ == crate::proto::T_PROPOSAL_GET@);
    assert(topics[27]@ == crate::proto::T_DOC_PUT@);
    assert(topics[28]@ == crate::proto::T_DOC_GET@);
    assert(topics[29]@ == crate::proto::T_DOCS_BY@);
    assert(topics[30]@ == crate::proto::T_DOC_HISTORY@);
    assert(topics[31]@ == crate::proto::T_DOC_LATEST@);
    assert(topics[32]@ == crate::proto::T_DOC_DIFF@);
    assert(topics[33]@ == crate::proto::T_BACKLINKS@);
    assert(topics[34]@ == crate::proto::T_DEVICE_LINK@);
}

/// A message that cannot be read is refused in words: a topic that means nothing is named, a body that makes
/// no sense is told why, and a push of a replica is told that nothing was taken in.
pub proof fn law_what_cannot_be_read_is_refused(envelope: Envelope, topic: Seq<char>, why: Seq<char>)
    requires
        service::refuses(envelope, topic, why),
    ensures
        service::route_of(topic) is Unknown ==> envelope.delivers() == Err::<Seq<char>, Seq<char>>(
            "unknown topic: "@ + topic,
        ),
        service::route_of(topic) is Replicate ==> envelope.delivers() == Ok::<Seq<char>, Seq<char>>(
            "{\"ok\":false}"@,
        ),
        !(service::route_of(topic) is Unknown) && !(service::route_of(topic) is Replicate) ==> envelope.delivers()
            == Err::<Seq<char>, Seq<char>>("bad request body: "@ + why),
{
}

/// A request asks for the operation that its own topic means.
pub proof fn law_requests_ask_under_their_topic(req: Request)
    ensures
        ({
            let asks = dispatch::asks_for(req);
            &&& req is ProfilePut ==> asks == service::route_of("trana/profile/put/v1"@)
            &&& req is ProfileGet ==> asks == service::route_of("trana/profile/get/v1"@)
            &&& req is MediaPut ==> asks == service::route_of("trana/media/put/v1"@)
            &&& req is MediaGet ==> asks == service::route_of("trana/media/get/v1"@)
            &&& req is PostCreate ==> asks == service::route_of("trana/post/create/v1"@)
            &&& req is PostGet ==> asks == service::route_of("trana/post/get/v1"@)
            &&& req is Threads ==> asks == service::route_of("trana/threads/v1"@)
            &&& req is Comments ==> asks == service::route_of("trana/comments/v1"@)
            &&& req is Vote ==> asks == service::route_of("trana/vote/v1"@)
            &&& req is Follow ==> asks == service::route_of("trana/follow/v1"@)
            &&& req is Karma ==> asks == service::route_of("trana/karma/v1"@)
            &&& req is StreamStart ==> asks == service::route_of("trana/stream/start/v1"@)
            &&& req is StreamAppend ==> asks == service::route_of("trana/stream/append/v1"@)
            &&& req is StreamEnd ==> asks == service::route_of("trana/stream/end/v1"@)
            &&& req is StreamGet ==> asks == service::route_of("trana/stream/get/v1"@)
            &&& req is StreamsLive ==> asks == service::route_of("trana/streams/live/v1"@)
            &&& req is Replicate ==> asks == service::route_of("trana/replicate/v1"@)
            &&& req is BoardPut ==> asks == service::route_of("trana/board/put/v1"@)
            &&& req is BoardGet ==> asks == service::route_of("trana/board/get/v1"@)
            &&& req is Boards ==> asks == service::route_of("trana/boards/v1"@)
            &&& req is Feed ==> asks == service::route_of("trana/feed/v1"@)
            &&& req is BanVote ==> asks == service::route_of("trana/ban/vote/v1"@)
            &&& req is BanStanding ==> asks == service::route_of("trana/ban/standing/v1"@)
            &&& req is PolicyPropose ==> asks == service::route_of("trana/policy/propose/v1"@)
            &&& req is PolicyVote ==> asks == service::route_of("trana/policy/vote/v1"@)
            &&& req is Proposals ==> asks == service::route_of("trana/proposals/v1"@)
            &&& req is ProposalGet ==> asks == service::route_of("trana/proposal/get/v1"@)
            &&& req is DocPut ==> asks == service::route_of("trana/doc/put/v1"@)
            &&& req is DocGet ==> asks == service::route_of("trana/doc/get/v1"@)
            &&& req is DocsBy ==> asks == service::route_of("trana/docs/by/v1"@)
            &&& req is DocHistory ==> asks == service::route_of("trana/doc/history/v1"@)
            &&& req is DocLatest ==> asks == service::route_of("trana/doc/latest/v1"@)
            &&& req is DocDiff ==> asks == service::route_of("trana/doc/diff/v1"@)
            &&& req is Backlinks ==> asks == service::route_of("trana/backlinks/v1"@)
            &&& req is DeviceLink ==> asks == service::route_of("trana/device/link/v1"@)
        }),
{
    law_topics_mean_their_operation();
}

} // verus!
