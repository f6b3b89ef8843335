//! The archive: documents, media, boards and proposals as they are listed, told from the records that were
//! published.
use crate::documents;
use crate::documents::DocumentView;
use crate::governance;
use crate::governance::{BoardView, ProposalView};
use crate::history;
use crate::history::{genuine, known, newer};
use crate::model::BodyModel;
use crate::order;
use crate::people;
use crate::readmodel::StateModel;
use crate::record::RecordModel;
use crate::refs;
use crate::stamp;
use crate::text;
use vstd::prelude::*;

verus! {

// ----- the order of lists -----

/// A list that is newest first: of two entries the later one stands first, and of one time the one with the
/// smaller id.
pub proof fn law_newest_come_first(stamps: Seq<(u64, Seq<char>)>, i: int, j: int)
    requires
        order::newest_first(stamps),
        0 <= i < stamps.len(),
        0 <= j < stamps.len(),
    ensures
        stamps[i].0 > stamps[j].0 ==> i < j,
        stamps[i].0 == stamps[j].0 && text::text_before(stamps[i].1, stamps[j].1) ==> i < j,
{
    if stamps[i].0 == stamps[j].0 {
        stamp::lemma_total(stamps[i].0, stamps[i].1, stamps[j].0, stamps[j].1);
    }
    if j < i {
        assert(stamps[j].0 > stamps[i].0 || (stamps[j].0 == stamps[i].0 && !text::text_before(
            stamps[i].1,
            stamps[j].1,
        )));
    }
}

// ----- documents -----

/// The record publishes a version of a document of the series: it names the series, or starts it.
pub open spec fn is_version(r: RecordModel, series: Seq<char>) -> bool {
    r.body matches BodyModel::Document(d) && (d.series == Some(series) || (d.series is None && r.id == series))
}

/// The record publishes a version of the document that the key names: by the id of one of its versions, or
/// by its series.
pub open spec fn is_named(rs: Seq<RecordModel>, r: RecordModel, key: Seq<char>) -> bool {
    if exists|i: int| 0 <= i < rs.len() && (#[trigger] rs[i]).id == key && rs[i].body is Document {
        exists|i: int, series: Seq<char>|
            0 <= i < rs.len() && (#[trigger] rs[i]).id == key && #[trigger] is_version(rs[i], series) && is_version(
                r,
                series,
            )
    } else {
        is_version(r, key)
    }
}

proof fn lemma_versions(rs: Seq<RecordModel>, key: Seq<char>, id: Seq<char>)
    requires
        genuine(rs),
    ensures
        documents::versions(known(rs), key).contains(id) <==> exists|i: int|
            0 <= i < rs.len() && (#[trigger] rs[i]).id == id && is_named(rs, rs[i], key),
{
    let m = known(rs);
    history::law_documents_are_shown_as_published(rs, key);
    history::law_documents_are_shown_as_published(rs, id);
    let wanted = documents::series_named(m, key);
    if m.documents.contains_key(key) {
        let k = choose|k: int| 0 <= k < rs.len() && (#[trigger] rs[k]).id == key && rs[k].body is Document;
        assert(documents::document_view(m, key).series == wanted);
        assert(is_version(rs[k], wanted));
        assert forall|r: RecordModel| is_named(rs, r, key) <==> #[trigger] is_version(r, wanted) by {
            if is_version(r, wanted) {
                assert(rs[k].id == key && is_version(rs[k], wanted) && is_version(r, wanted));
            }
            if is_named(rs, r, key) {
                let (i, series) = choose|i: int, series: Seq<char>|
                    0 <= i < rs.len() && (#[trigger] rs[i]).id == key && #[trigger] is_version(rs[i], series)
                        && is_version(r, series);
                assert(rs[i].id == rs[k].id);
                assert(series == wanted);
            }
        }
    } else {
        assert forall|r: RecordModel| is_named(rs, r, key) <==> #[trigger] is_version(r, wanted) by {}
    }
    if documents::versions(m, key).contains(id) {
        let i = choose|i: int| 0 <= i < rs.len() && (#[trigger] rs[i]).id == id && rs[i].body is Document;
        assert(documents::document_view(m, id).series == wanted);
        assert(is_version(rs[i], wanted));
    }
    if exists|i: int| 0 <= i < rs.len() && (#[trigger] rs[i]).id == id && is_named(rs, rs[i], key) {
        let i = choose|i: int| 0 <= i < rs.len() && (#[trigger] rs[i]).id == id && is_named(rs, rs[i], key);
        assert(is_version(rs[i], wanted));
        assert(documents::document_view(m, id).series == wanted);
        assert(m.documents.contains_key(id));
    }
}

/// The history of a document lists every version that was published of it, each once and the oldest first,
/// whichever version or series one asks by.
pub proof fn law_history_lists_every_version(
    rs: Seq<RecordModel>,
    key: Seq<char>,
    views: Seq<DocumentView>,
    id: Seq<char>,
)
    requires
        genuine(rs),
        documents::shows_each(known(rs), documents::versions(known(rs), key), views),
        documents::oldest_first(views),
    ensures
        (exists|k: int| 0 <= k < views.len() && (#[trigger] views[k]).id@ == id) <==> (exists|i: int|
            0 <= i < rs.len() && (#[trigger] rs[i]).id == id && is_named(rs, rs[i], key)),
        forall|k: int, l: int|
            0 <= k < l < views.len() ==> (#[trigger] views[k]).id@ != (#[trigger] views[l]).id@ && views[k].created_ms
                <= views[l].created_ms,
        forall|k: int| 0 <= k < views.len() ==> (#[trigger] views[k])@ == documents::document_view(known(rs), views[k].id@),
{
    let ids = views.map_values(|v: DocumentView| v.id@);
    lemma_versions(rs, key, id);
    lemma_listed(views, ids, id);
    assert(ids.to_set().contains(id) <==> documents::versions(known(rs), key).contains(id));
    assert forall|k: int, l: int| 0 <= k < l < views.len() implies (#[trigger] views[k]).id@ != (
    #[trigger] views[l]).id@ && views[k].created_ms <= views[l].created_ms by {
        assert(ids[k] == views[k].id@ && ids[l] == views[l].id@);
    }
}

proof fn lemma_listed(views: Seq<DocumentView>, ids: Seq<Seq<char>>, id: Seq<char>)
    requires
        ids == views.map_values(|v: DocumentView| v.id@),
    ensures
        ids.to_set().contains(id) <==> exists|k: int| 0 <= k < views.len() && (#[trigger] views[k]).id@ == id,
{
    if exists|k: int| 0 <= k < views.len() && (#[trigger] views[k]).id@ == id {
        let k = choose|k: int| 0 <= k < views.len() && (#[trigger] views[k]).id@ == id;
        assert(ids[k] == id);
    }
    if ids.contains(id) {
        let k = choose|k: int| 0 <= k < ids.len() && ids[k] == id;
        assert(views[k].id@ == id);
    }
}

/// The latest version of a document is one that was published of it, and all others are older.
pub proof fn law_latest_version_is_the_newest(rs: Seq<RecordModel>, key: Seq<char>, v: DocumentView)
    requires
        genuine(rs),
        documents::is_latest(known(rs), key, v),
    ensures
        exists|i: int|
            0 <= i < rs.len() && (#[trigger] rs[i]).id == v.id@ && is_named(rs, rs[i], key) && v.document@
                == rs[i].body->Document_0 && v.created_ms == rs[i].created_ms && v.author@ == rs[i].author,
        forall|i: int, j: int|
            0 <= i < rs.len() && 0 <= j < rs.len() && (#[trigger] rs[i]).id == v.id@ && (#[trigger] rs[j]).id != v.id@
                && is_named(rs, rs[j], key) ==> newer(rs[i], rs[j]),
{
    let m = known(rs);
    lemma_versions(rs, key, v.id@);
    history::law_documents_are_shown_as_published(rs, v.id@);
    let k = choose|k: int| 0 <= k < rs.len() && (#[trigger] rs[k]).id == v.id@ && is_named(rs, rs[k], key);
    assert(rs[k].body is Document);
    assert(v@ == documents::document_view(m, v.id@));
    assert forall|i: int, j: int|
        0 <= i < rs.len() && 0 <= j < rs.len() && (#[trigger] rs[i]).id == v.id@ && (#[trigger] rs[j]).id != v.id@
            && is_named(rs, rs[j], key) implies newer(rs[i], rs[j]) by {
        lemma_versions(rs, key, rs[j].id);
        history::law_documents_are_shown_as_published(rs, rs[j].id);
        assert(rs[i].id == rs[k].id);
        assert(documents::versions(m, key).contains(rs[j].id));
        assert(documents::document_view(m, rs[j].id).created_ms == rs[j].created_ms);
    }
}

/// A document has no latest version exactly where none was published of it.
pub proof fn law_no_version_no_latest(rs: Seq<RecordModel>, key: Seq<char>)
    requires
        genuine(rs),
    ensures
        documents::versions(known(rs), key) == Set::<Seq<char>>::empty() <==> !(exists|i: int|
            0 <= i < rs.len() && is_named(rs, #[trigger] rs[i], key)),
{
    let all = documents::versions(known(rs), key);
    if exists|i: int| 0 <= i < rs.len() && is_named(rs, #[trigger] rs[i], key) {
        let i = choose|i: int| 0 <= i < rs.len() && is_named(rs, #[trigger] rs[i], key);
        lemma_versions(rs, key, rs[i].id);
        assert(all.contains(rs[i].id));
    } else {
        assert forall|id: Seq<char>| !all.contains(id) by {
            lemma_versions(rs, key, id);
        }
        assert(all =~= Set::empty());
    }
}

/// The documents of an author are exactly the versions that they have published, each once, the newest
/// first.
pub proof fn law_documents_by_their_author(
    rs: Seq<RecordModel>,
    author: Seq<char>,
    views: Seq<DocumentView>,
    id: Seq<char>,
)
    requires
        genuine(rs),
        documents::shows_each(known(rs), documents::written_by(known(rs), author), views),
        order::newest_first(views.map_values(|v: DocumentView| (v.created_ms, v.id@))),
    ensures
        (exists|k: int| 0 <= k < views.len() && (#[trigger] views[k]).id@ == id) <==> (exists|i: int|
            0 <= i < rs.len() && (#[trigger] rs[i]).id == id && rs[i].author == author && rs[i].body is Document),
        forall|k: int, l: int|
            0 <= k < l < views.len() ==> (#[trigger] views[k]).id@ != (#[trigger] views[l]).id@ && views[k].created_ms
                >= views[l].created_ms,
{
    let m = known(rs);
    let ids = views.map_values(|v: DocumentView| v.id@);
    let stamps = views.map_values(|v: DocumentView| (v.created_ms, v.id@));
    history::law_documents_are_shown_as_published(rs, id);
    lemma_listed(views, ids, id);
    assert(ids.to_set().contains(id) <==> documents::written_by(m, author).contains(id));
    if m.documents.contains_key(id) {
        let i = choose|i: int| 0 <= i < rs.len() && (#[trigger] rs[i]).id == id && rs[i].body is Document;
        assert(documents::document_view(m, id).author == rs[i].author);
    }
    if exists|i: int| 0 <= i < rs.len() && (#[trigger] rs[i]).id == id && rs[i].author == author && rs[i].body is Document {
        let i = choose|i: int|
            0 <= i < rs.len() && (#[trigger] rs[i]).id == id && rs[i].author == author && rs[i].body is Document;
        assert(documents::document_view(m, id).author == rs[i].author);
        assert(m.documents.contains_key(id));
    }
    assert forall|k: int, l: int| 0 <= k < l < views.len() implies (#[trigger] views[k]).id@ != (
    #[trigger] views[l]).id@ && views[k].created_ms >= views[l].created_ms by {
        assert(ids[k] == views[k].id@ && ids[l] == views[l].id@);
        assert(stamps[k].0 == views[k].created_ms && stamps[l].0 == views[l].created_ms);
        law_newest_come_first(stamps, l, k);
    }
}

/// What a text cites: the ids of the references that stand in it.
pub open spec fn cites(body: Seq<char>, id: Seq<char>) -> bool {
    exists|k: int| 0 <= k < refs::embedded_refs(body).len() && (#[trigger] refs::embedded_refs(body)[k]).id == id
}

/// The record is a post that refers to `id`.
pub open spec fn post_refers(r: RecordModel, id: Seq<char>) -> bool {
    r.body matches BodyModel::Post(p) && cites(p.body, id)
}

/// The record is a version of a document that refers to `id`, in its text or among its declared references.
pub open spec fn document_refers(r: RecordModel, id: Seq<char>) -> bool {
    r.body matches BodyModel::Document(d) && (cites(d.body, id) || exists|k: int|
        0 <= k < d.refs.len() && (#[trigger] d.refs[k]).id == id)
}

/// The backlinks of `id` are the URIs of exactly those posts and versions of documents that were published
/// and refer to it: `trana://post/` or `trana://document/` and then the id of each.
pub proof fn law_backlinks_name_what_refers(
    rs: Seq<RecordModel>,
    id: Seq<char>,
    uris: Seq<Seq<char>>,
    i: int,
)
    requires
        genuine(rs),
        documents::lists_backlinks(known(rs), id, uris),
        0 <= i < rs.len(),
    ensures
        post_refers(rs[i], id) ==> uris.contains("trana://post/"@ + rs[i].id),
        document_refers(rs[i], id) ==> uris.contains("trana://document/"@ + rs[i].id),
        uris.no_duplicates(),
{
    let m = known(rs);
    lemma_uri_forms(rs[i].id);
    if post_refers(rs[i], id) {
        history::law_posts_are_shown_as_published(rs, rs[i].id);
        assert(crate::feed::post_view(m, rs[i].id).body == rs[i].body->Post_0.body);
        assert(documents::post_cites(m, rs[i].id, id));
        assert(documents::links_back(m, id, documents::post_uri(rs[i].id)));
    }
    if document_refers(rs[i], id) {
        history::law_documents_are_shown_as_published(rs, rs[i].id);
        assert(documents::document_view(m, rs[i].id).document == rs[i].body->Document_0);
        assert(documents::document_cites(m, rs[i].id, id));
        assert(documents::links_back(m, id, documents::document_uri(rs[i].id)));
    }
}

proof fn lemma_uri_forms(id: Seq<char>)
    ensures
        documents::post_uri(id) == "trana://post/"@ + id,
        documents::document_uri(id) == "trana://document/"@ + id,
{
    reveal_strlit("trana://post/");
    reveal_strlit("trana://document/");
    reveal_strlit("post");
    reveal_strlit("document");
    assert(documents::post_uri(id) =~= "trana://post/"@ + id);
    assert(documents::document_uri(id) =~= "trana://document/"@ + id);
}

/// Nothing is a backlink that does not refer: each of them is the URI of a post or a version of a document
/// that was published and refers to `id`.
pub proof fn law_backlinks_refer(rs: Seq<RecordModel>, id: Seq<char>, uris: Seq<Seq<char>>, k: int)
    requires
        genuine(rs),
        documents::lists_backlinks(known(rs), id, uris),
        0 <= k < uris.len(),
    ensures
        exists|i: int|
            0 <= i < rs.len() && ((post_refers(#[trigger] rs[i], id) && uris[k] == "trana://post/"@ + rs[i].id) || (
            document_refers(rs[i], id) && uris[k] == "trana://document/"@ + rs[i].id)),
{
    let m = known(rs);
    assert(uris.contains(uris[k]));
    assert(documents::links_back(m, id, uris[k]));
    if exists|p: Seq<char>| #[trigger] documents::post_cites(m, p, id) && uris[k] == documents::post_uri(p) {
        let p = choose|p: Seq<char>| #[trigger] documents::post_cites(m, p, id) && uris[k] == documents::post_uri(p);
        history::law_posts_are_shown_as_published(rs, p);
        lemma_uri_forms(p);
        let i = choose|i: int| 0 <= i < rs.len() && (#[trigger] rs[i]).id == p && rs[i].body is Post;
        assert(crate::feed::post_view(m, p).body == rs[i].body->Post_0.body);
        assert(post_refers(rs[i], id));
    } else {
        let d = choose|d: Seq<char>|
            #[trigger] documents::document_cites(m, d, id) && uris[k] == documents::document_uri(d);
        history::law_documents_are_shown_as_published(rs, d);
        lemma_uri_forms(d);
        let i = choose|i: int| 0 <= i < rs.len() && (#[trigger] rs[i]).id == d && rs[i].body is Document;
        assert(documents::document_view(m, d).document == rs[i].body->Document_0);
        assert(document_refers(rs[i], id));
    }
}

// ----- media, boards and proposals -----

/// The media of an author are exactly the descriptors that they have published.
pub proof fn law_media_by_their_author(rs: Seq<RecordModel>, author: Seq<char>, id: Seq<char>)
    requires
        genuine(rs),
    ensures
        people::media_of(known(rs), author).contains(id) <==> exists|i: int|
            0 <= i < rs.len() && (#[trigger] rs[i]).id == id && rs[i].author == author && rs[i].body is Media,
{
    history::law_media_are_shown_as_published(rs, id);
    let m = known(rs);
    if m.media.contains_key(id) {
        let i = choose|i: int| 0 <= i < rs.len() && (#[trigger] rs[i]).id == id && rs[i].body is Media;
        assert(m.media[id].author == rs[i].author);
    }
}

/// The boards that are listed are exactly those whose name was claimed, each once, the newest first.
pub proof fn law_boards_are_those_claimed(rs: Seq<RecordModel>, views: Seq<BoardView>, board: Seq<char>)
    requires
        genuine(rs),
        governance::lists_boards(known(rs), views),
    ensures
        (exists|k: int| 0 <= k < views.len() && (#[trigger] views[k]).board@ == board) <==> (exists|i: int|
            0 <= i < rs.len() && history::claims(#[trigger] rs[i], board)),
        forall|k: int, l: int|
            0 <= k < l < views.len() ==> (#[trigger] views[k]).board@ != (#[trigger] views[l]).board@
                && views[k].created_ms >= views[l].created_ms,
        forall|k: int| 0 <= k < views.len() ==> (#[trigger] views[k])@ == governance::board_view(known(rs), views[k].board@),
{
    let ids = views.map_values(|v: BoardView| v.board@);
    let stamps = views.map_values(|v: BoardView| (v.created_ms, v.board@));
    history::law_board_is_its_first_claim(rs, board);
    assert(ids.to_set().contains(board) <==> known(rs).boards.contains_key(board));
    if exists|k: int| 0 <= k < views.len() && (#[trigger] views[k]).board@ == board {
        let k = choose|k: int| 0 <= k < views.len() && (#[trigger] views[k]).board@ == board;
        assert(ids[k] == board);
    }
    if ids.contains(board) {
        let k = choose|k: int| 0 <= k < ids.len() && ids[k] == board;
        assert(views[k].board@ == board);
    }
    assert forall|k: int, l: int| 0 <= k < l < views.len() implies (#[trigger] views[k]).board@ != (
    #[trigger] views[l]).board@ && views[k].created_ms >= views[l].created_ms by {
        assert(ids[k] == views[k].board@ && ids[l] == views[l].board@);
        assert(stamps[k].0 == views[k].created_ms && stamps[l].0 == views[l].created_ms);
        law_newest_come_first(stamps, l, k);
    }
}

/// The proposals that are listed are exactly those published, or with a board those that name it, each
/// once, the newest first.
pub proof fn law_proposals_are_those_published(
    rs: Seq<RecordModel>,
    board: Option<Seq<char>>,
    views: Seq<ProposalView>,
    id: Seq<char>,
)
    requires
        genuine(rs),
        governance::lists_proposals(known(rs), board, views),
    ensures
        (exists|k: int| 0 <= k < views.len() && (#[trigger] views[k]).id@ == id) <==> (exists|i: int|
            0 <= i < rs.len() && (#[trigger] rs[i]).id == id && (rs[i].body matches BodyModel::PolicyProposal(p) && (
            board is None || p.board == board))),
        forall|k: int, l: int|
            0 <= k < l < views.len() ==> (#[trigger] views[k]).id@ != (#[trigger] views[l]).id@ && views[k].created_ms
                >= views[l].created_ms,
        forall|k: int| 0 <= k < views.len() ==> (#[trigger] views[k])@ == governance::proposal_view(known(rs), views[k].id@),
{
    let m = known(rs);
    let ids = views.map_values(|v: ProposalView| v.id@);
    let stamps = views.map_values(|v: ProposalView| (v.created_ms, v.id@));
    history::law_proposals_are_shown_as_published(rs, id);
    assert(ids.to_set().contains(id) <==> governance::proposals_in(m, board).contains(id));
    if m.proposals.contains_key(id) {
        let i = choose|i: int| 0 <= i < rs.len() && (#[trigger] rs[i]).id == id && rs[i].body is PolicyProposal;
        assert(governance::proposal_view(m, id).board == rs[i].body->PolicyProposal_0.board);
    }
    if exists|i: int|
        0 <= i < rs.len() && (#[trigger] rs[i]).id == id && (rs[i].body matches BodyModel::PolicyProposal(p) && (
        board is None || p.board == board)) {
        let i = choose|i: int|
            0 <= i < rs.len() && (#[trigger] rs[i]).id == id && (rs[i].body matches BodyModel::PolicyProposal(p) && (
            board is None || p.board == board));
        assert(governance::proposal_view(m, id).board == rs[i].body->PolicyProposal_0.board);
        assert(m.proposals.contains_key(id));
    }
    if exists|k: int| 0 <= k < views.len() && (#[trigger] views[k]).id@ == id {
        let k = choose|k: int| 0 <= k < views.len() && (#[trigger] views[k]).id@ == id;
        assert(ids[k] == id);
    }
    if ids.contains(id) {
        let k = choose|k: int| 0 <= k < ids.len() && ids[k] == id;
        assert(views[k].id@ == id);
    }
    assert forall|k: int, l: int| 0 <= k < l < views.len() implies (#[trigger] views[k]).id@ != (
    #[trigger] views[l]).id@ && views[k].created_ms >= views[l].created_ms by {
        assert(ids[k] == views[k].id@ && ids[l] == views[l].id@);
        assert(stamps[k].0 == views[k].created_ms && stamps[l].0 == views[l].created_ms);
        law_newest_come_first(stamps, l, k);
    }
}

} // verus!
