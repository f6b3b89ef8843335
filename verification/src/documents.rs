//! Documents: versioned artifacts, addressed by record id. Each version is immutable; the versions of one
//! document share a series, named by the id of the first of them.
use crate::ballot;
use crate::diff;
use crate::diff::{DiffLine, DiffLineModel};
use crate::model::{Document, DocumentModel};
use crate::order;
use crate::readmodel::StateModel;
use crate::refs;
use crate::refs::{Ref, RefKind, RefModel};
use crate::stamp;
use crate::state::State;
use crate::text;
use vstd::prelude::*;

verus! {

/// A version of a document as returned to readers, with its vote tallies.
pub struct DocumentView {
    pub id: String,
    pub author: String,
    pub created_ms: u64,
    /// The series that the version belongs to.
    pub series: String,
    pub document: Document,
    pub ups: u64,
    pub downs: u64,
    /// Net score (`ups - downs`).
    pub score: i64,
}

/// What a [`DocumentView`] shows.
#[verifier::ext_equal]
pub struct DocumentViewModel {
    pub id: Seq<char>,
    pub author: Seq<char>,
    pub created_ms: u64,
    pub series: Seq<char>,
    pub document: DocumentModel,
    pub ups: nat,
    pub downs: nat,
    pub score: int,
}

impl View for DocumentView {
    type V = DocumentViewModel;

    open spec fn view(&self) -> DocumentViewModel {
        DocumentViewModel {
            id: self.id@,
            author: self.author@,
            created_ms: self.created_ms,
            series: self.series@,
            document: self.document@,
            ups: self.ups as nat,
            downs: self.downs as nat,
            score: self.score as int,
        }
    }
}

/// The series of a version: the one it names, or the one it starts under its own id.
pub open spec fn series_of(m: StateModel, id: Seq<char>) -> Seq<char> {
    match m.documents[id].document.series {
        Some(series) => series,
        None => id,
    }
}

/// The view of the version `id`.
pub open spec fn document_view(m: StateModel, id: Seq<char>) -> DocumentViewModel {
    let marks = ballot::marks_on(m.votes, id);
    DocumentViewModel {
        id,
        author: m.documents[id].author,
        created_ms: m.documents[id].created_ms,
        series: series_of(m, id),
        document: m.documents[id].document,
        ups: ballot::count_of(marks, 1),
        downs: ballot::count_of(marks, -1),
        score: ballot::count_of(marks, 1) - ballot::count_of(marks, -1),
    }
}

/// The series that a key names: that of the version with this id, or the key itself.
pub open spec fn series_named(m: StateModel, key: Seq<char>) -> Seq<char> {
    if m.documents.contains_key(key) {
        series_of(m, key)
    } else {
        key
    }
}

/// The versions of the document that a key names.
pub open spec fn versions(m: StateModel, key: Seq<char>) -> Set<Seq<char>> {
    m.documents.dom().filter(|id: Seq<char>| series_of(m, id) == series_named(m, key))
}

/// The versions that `author` has published.
pub open spec fn written_by(m: StateModel, author: Seq<char>) -> Set<Seq<char>> {
    m.documents.dom().filter(|id: Seq<char>| m.documents[id].author == author)
}

/// The list shows each of `ids` once.
pub open spec fn shows_each(m: StateModel, ids: Set<Seq<char>>, views: Seq<DocumentView>) -> bool {
    &&& forall|i: int| 0 <= i < views.len() ==> (#[trigger] views[i])@ == document_view(m, views[i].id@)
    &&& views.map_values(|v: DocumentView| v.id@).no_duplicates()
    &&& views.map_values(|v: DocumentView| v.id@).to_set() == ids
}

/// Oldest first, and of one time the smaller id first.
pub open spec fn oldest_first(views: Seq<DocumentView>) -> bool {
    forall|i: int, j: int|
        0 <= i < j < views.len() ==> stamp::before(
            (#[trigger] views[i]).created_ms,
            views[i].id@,
            (#[trigger] views[j]).created_ms,
            views[j].id@,
        )
}

/// The version `v` is the tip of the document that `key` names: no other version is stamped later.
pub open spec fn is_latest(m: StateModel, key: Seq<char>, v: DocumentView) -> bool {
    &&& versions(m, key).contains(v.id@)
    &&& v@ == document_view(m, v.id@)
    &&& forall|id: Seq<char>| #[trigger]
        versions(m, key).contains(id) && id != v.id@ ==> stamp::before(
            m.documents[id].created_ms,
            id,
            v.created_ms,
            v.id@,
        )
}

/// How the body of one version becomes that of another, line by line; nothing where either version is
/// unknown.
pub open spec fn document_diff_of(m: StateModel, from: Seq<char>, to: Seq<char>) -> Seq<DiffLineModel> {
    if m.documents.contains_key(from) && m.documents.contains_key(to) {
        diff::diff_of(
            diff::lines_of(m.documents[from].document.body),
            diff::lines_of(m.documents[to].document.body),
        )
    } else {
        Seq::empty()
    }
}

/// One of the references names `id`.
pub open spec fn names(found: Seq<RefModel>, id: Seq<char>) -> bool {
    exists|i: int| 0 <= i < found.len() && (#[trigger] found[i]).id == id
}

/// The post refers to `id` in its body.
pub open spec fn post_cites(m: StateModel, post: Seq<char>, id: Seq<char>) -> bool {
    m.posts.contains_key(post) && names(refs::embedded_refs(m.posts[post].post.body), id)
}

/// The version refers to `id`, in its body or among the references it declares.
pub open spec fn document_cites(m: StateModel, version: Seq<char>, id: Seq<char>) -> bool {
    &&& m.documents.contains_key(version)
    &&& names(refs::embedded_refs(m.documents[version].document.body), id) || names(
        m.documents[version].document.refs,
        id,
    )
}

/// The URI of a post.
pub open spec fn post_uri(post: Seq<char>) -> Seq<char> {
    refs::uri_of(RefModel { kind: RefKind::Post, id: post })
}

/// The URI of a version of a document.
pub open spec fn document_uri(version: Seq<char>) -> Seq<char> {
    refs::uri_of(RefModel { kind: RefKind::Document, id: version })
}

/// Something with this URI refers to `id`.
pub open spec fn links_back(m: StateModel, id: Seq<char>, uri: Seq<char>) -> bool {
    ||| exists|p: Seq<char>| #[trigger] post_cites(m, p, id) && uri == post_uri(p)
    ||| exists|d: Seq<char>| #[trigger] document_cites(m, d, id) && uri == document_uri(d)
}

/// Every URI of what refers to `id`, each once.
pub open spec fn lists_backlinks(m: StateModel, id: Seq<char>, uris: Seq<Seq<char>>) -> bool {
    &&& uris.no_duplicates()
    &&& forall|u: Seq<char>| #[trigger] uris.contains(u) <==> links_back(m, id, u)
}

/// Different ids have different URIs, and a post never has the URI of a document.
proof fn lemma_uris(a: Seq<char>, b: Seq<char>)
    ensures
        post_uri(a) == post_uri(b) ==> a == b,
        document_uri(a) == document_uri(b) ==> a == b,
        post_uri(a) != document_uri(b),
{
    reveal_strlit("post");
    reveal_strlit("document");
    let pa = post_uri(a);
    let pb = post_uri(b);
    let da = document_uri(a);
    let db = document_uri(b);
    let n = refs::scheme().len() as int;
    assert(pa.skip(n + 5) =~= a);
    assert(pb.skip(n + 5) =~= b);
    assert(da.skip(n + 9) =~= a);
    assert(db.skip(n + 9) =~= b);
    assert(pa[n] == 'p');
    assert(db[n] == 'd');
}

/// Does one of the references name `id`?
fn any_names(found: &Vec<Ref>, id: &str) -> (yes: bool)
    ensures
        yes == names(found.deep_view(), id@),
{
    let mut i: usize = 0;
    while i < found.len()
        invariant
            i <= found@.len(),
            forall|j: int| 0 <= j < i ==> (#[trigger] found.deep_view()[j]).id != id@,
        decreases found.len() - i,
    {
        assert(found.deep_view()[i as int] == found@[i as int]@);
        if text::same_text(&found[i].id, id) {
            return true;
        }
        i = i + 1;
    }
    false
}

impl State {
    /// The URIs of the posts that refer to `id`, then of the versions of documents that do.
    fn citing_uris(&self, id: &str) -> (uris: Vec<String>)
        requires
            self.wf(),
        ensures
            lists_backlinks(self@, id@, uris.deep_view()),
    {
        let mut uris: Vec<String> = Vec::new();
        let posts = self.post_table();
        let ghost post_ids = posts.order();
        proof {
            posts.lemma_order();
        }
        let n: usize = posts.len();
        let mut i: usize = 0;
        while i < n
            invariant
                i <= n,
                n == post_ids.len(),
                post_ids == posts.order(),
                post_ids.no_duplicates(),
                posts.wf(),
                posts@.dom() == self@.posts.dom(),
                forall|k: Seq<char>| #[trigger] posts@.contains_key(k) ==> posts@[k]@ == self@.posts[k],
                uris.deep_view().no_duplicates(),
                forall|u: Seq<char>| #[trigger]
                    uris.deep_view().contains(u) <==> exists|j: int|
                        0 <= j < i && post_cites(self@, #[trigger] post_ids[j], id@) && u == post_uri(post_ids[j]),
            decreases n - i,
        {
            let post_id = posts.key_at(i);
            let found = refs::extract_refs(&posts.val_at(i).post.body);
            let ghost before = uris.deep_view();
            let cites: bool = any_names(&found, id);
            assert(cites == post_cites(self@, post_ids[i as int], id@));
            if cites {
                let uri = Ref::post(post_id).to_uri();
                uris.push(uri);
                proof {
                    assert(uris.deep_view() =~= before.push(post_uri(post_ids[i as int])));
                    assert(!before.contains(post_uri(post_ids[i as int]))) by {
                        if before.contains(post_uri(post_ids[i as int])) {
                            let j = choose|j: int|
                                0 <= j < i && post_cites(self@, #[trigger] post_ids[j], id@) && post_uri(
                                    post_ids[i as int],
                                ) == post_uri(post_ids[j]);
                            lemma_uris(post_ids[i as int], post_ids[j]);
                        }
                    }
                    order::lemma_one_more(before, post_uri(post_ids[i as int]));
                }
            }
            proof {
                let now = uris.deep_view();
                assert forall|u: Seq<char>| #[trigger] now.contains(u) <==> exists|j: int|
                    0 <= j < i + 1 && post_cites(self@, #[trigger] post_ids[j], id@) && u == post_uri(post_ids[j]) by {
                    if before.contains(u) {
                        let j = choose|j: int|
                            0 <= j < i && post_cites(self@, #[trigger] post_ids[j], id@) && u == post_uri(post_ids[j]);
                        assert(0 <= j < i + 1);
                    } else if cites && u == post_uri(post_ids[i as int]) {
                        assert(post_cites(self@, post_ids[i as int], id@));
                    }
                }
            }
            i = i + 1;
        }
        let ghost from_posts = uris.deep_view();
        let documents = self.document_table();
        let ghost doc_ids = documents.order();
        proof {
            documents.lemma_order();
        }
        let n: usize = documents.len();
        let mut i: usize = 0;
        while i < n
            invariant
                i <= n,
                n == doc_ids.len(),
                doc_ids == documents.order(),
                doc_ids.no_duplicates(),
                documents.wf(),
                documents@.dom() == self@.documents.dom(),
                forall|k: Seq<char>| #[trigger] documents@.contains_key(k) ==> documents@[k]@ == self@.documents[k],
                uris.deep_view().no_duplicates(),
                forall|u: Seq<char>| #[trigger]
                    from_posts.contains(u) ==> exists|p: Seq<char>| u == #[trigger] post_uri(p),
                forall|u: Seq<char>| #[trigger]
                    uris.deep_view().contains(u) <==> from_posts.contains(u) || exists|j: int|
                        0 <= j < i && document_cites(self@, #[trigger] doc_ids[j], id@) && u == document_uri(
                            doc_ids[j],
                        ),
            decreases n - i,
        {
            let version = documents.key_at(i);
            let d = documents.val_at(i);
            let found = refs::extract_refs(&d.document.body);
            let ghost before = uris.deep_view();
            let cites: bool = any_names(&found, id) || any_names(&d.document.refs, id);
            assert(cites == document_cites(self@, doc_ids[i as int], id@));
            if cites {
                let uri = Ref::document(version).to_uri();
                uris.push(uri);
                proof {
                    let new = document_uri(doc_ids[i as int]);
                    assert(uris.deep_view() =~= before.push(new));
                    assert(!before.contains(new)) by {
                        if from_posts.contains(new) {
                            let p = choose|p: Seq<char>| new == #[trigger] post_uri(p);
                            lemma_uris(p, doc_ids[i as int]);
                        } else if before.contains(new) {
                            let j = choose|j: int|
                                0 <= j < i && document_cites(self@, #[trigger] doc_ids[j], id@) && new == document_uri(
                                    doc_ids[j],
                                );
                            lemma_uris(doc_ids[i as int], doc_ids[j]);
                        }
                    }
                    order::lemma_one_more(before, new);
                }
            }
            proof {
                let now = uris.deep_view();
                assert forall|u: Seq<char>| #[trigger] now.contains(u) <==> from_posts.contains(u) || exists|j: int|
                    0 <= j < i + 1 && document_cites(self@, #[trigger] doc_ids[j], id@) && u == document_uri(
                        doc_ids[j],
                    ) by {
                    if before.contains(u) {
                        if !from_posts.contains(u) {
                            let j = choose|j: int|
                                0 <= j < i && document_cites(self@, #[trigger] doc_ids[j], id@) && u == document_uri(
                                    doc_ids[j],
                                );
                            assert(0 <= j < i + 1);
                        }
                    } else if cites && u == document_uri(doc_ids[i as int]) {
                        assert(document_cites(self@, doc_ids[i as int], id@));
                    }
                }
            }
            i = i + 1;
        }
        proof {
            let all = uris.deep_view();
            assert forall|u: Seq<char>| #[trigger] all.contains(u) <==> links_back(self@, id@, u) by {
                if exists|p: Seq<char>| #[trigger] post_cites(self@, p, id@) && u == post_uri(p) {
                    let p = choose|p: Seq<char>| #[trigger] post_cites(self@, p, id@) && u == post_uri(p);
                    assert(post_ids.contains(p));
                    let j = choose|j: int| 0 <= j < post_ids.len() && post_ids[j] == p;
                    assert(post_cites(self@, post_ids[j], id@));
                }
                if exists|d: Seq<char>| #[trigger] document_cites(self@, d, id@) && u == document_uri(d) {
                    let d = choose|d: Seq<char>| #[trigger] document_cites(self@, d, id@) && u == document_uri(d);
                    assert(doc_ids.contains(d));
                    let j = choose|j: int| 0 <= j < doc_ids.len() && doc_ids[j] == d;
                    assert(document_cites(self@, doc_ids[j], id@));
                }
            }
        }
        uris
    }

    /// The `trana://` URIs of every post and version of a document that refers to `id`, in ascending
    /// order.
    pub fn backlinks(&self, id: &str) -> (uris: Vec<String>)
        requires
            self.wf(),
        ensures
            lists_backlinks(self@, id@, uris.deep_view()),
            order::alphabetical(uris.deep_view()),
    {
        let found = self.citing_uris(id);
        let uris = order::sorted(&found);
        proof {
            let from = found.deep_view();
            let all = uris.deep_view();
            assert forall|u: Seq<char>| #[trigger] all.contains(u) <==> links_back(self@, id@, u) by {
                assert(all.to_set().contains(u) <==> from.to_set().contains(u));
                assert(from.contains(u) <==> links_back(self@, id@, u));
            }
        }
        uris
    }

    /// A version of a document.
    pub fn document(&self, id: &str) -> (view: Option<DocumentView>)
        requires
            self.wf(),
        ensures
            match view {
                Some(v) => self@.documents.contains_key(id@) && v@ == document_view(self@, id@),
                None => !self@.documents.contains_key(id@),
            },
    {
        match self.document_table().get(id) {
            Some(d) => {
                let (ups, downs) = self.vote_ledger().tally(id);
                let series = match &d.document.series {
                    Some(s) => s.clone(),
                    None => id.to_owned(),
                };
                Some(
                    DocumentView {
                        id: id.to_owned(),
                        author: d.author.clone(),
                        created_ms: d.created_ms,
                        series,
                        document: d.document.clone(),
                        ups,
                        downs,
                        score: ups as i64 - downs as i64,
                    },
                )
            },
            None => None,
        }
    }

    /// A line diff between the bodies of two versions: nothing where either is unknown.
    pub fn document_diff(&self, from: &str, to: &str) -> (diff: Vec<DiffLine>)
        requires
            self.wf(),
        ensures
            diff.deep_view() == document_diff_of(self@, from@, to@),
    {
        let table = self.document_table();
        match (table.get(from), table.get(to)) {
            (Some(a), Some(b)) => diff::diff(&diff::lines(&a.document.body), &diff::lines(&b.document.body)),
            _ => {
                let none: Vec<DiffLine> = Vec::new();
                assert(none.deep_view() =~= Seq::empty());
                none
            },
        }
    }

    /// The ids of the versions that `author` has published.
    fn written_ids(&self, author: &str) -> (ids: Vec<String>)
        requires
            self.wf(),
        ensures
            ids.deep_view().no_duplicates(),
            ids.deep_view().to_set() == written_by(self@, author@),
    {
        let table = self.document_table();
        let ghost names = table.order();
        let ghost keep = |id: Seq<char>| self@.documents[id].author == author@;
        let mut ids: Vec<String> = Vec::new();
        let n: usize = table.len();
        let mut i: usize = 0;
        proof {
            table.lemma_order();
            order::lemma_filter_none(names, keep);
            assert(ids.deep_view() =~= names.take(0).filter(keep));
        }
        while i < n
            invariant
                i <= n,
                n == names.len(),
                names == table.order(),
                table.wf(),
                keep == (|id: Seq<char>| self@.documents[id].author == author@),
                forall|k: Seq<char>| #[trigger] table@.contains_key(k) ==> table@[k]@ == self@.documents[k],
                ids.deep_view() == names.take(i as int).filter(keep),
            decreases n - i,
        {
            let ghost before = ids.deep_view();
            proof {
                order::lemma_filter_next(names, keep, i as int);
            }
            if text::same_text(&table.val_at(i).author, author) {
                ids.push(table.key_at(i).clone());
                assert(ids.deep_view() =~= before.push(names[i as int]));
            }
            i = i + 1;
        }
        proof {
            order::lemma_filter_none(names, keep);
            order::lemma_filtered(names, keep);
            assert(names.to_set().filter(keep) =~= written_by(self@, author@));
        }
        ids
    }

    /// The ids of the versions of the document that `key` names.
    fn version_ids(&self, key: &str) -> (ids: Vec<String>)
        requires
            self.wf(),
        ensures
            ids.deep_view().no_duplicates(),
            ids.deep_view().to_set() == versions(self@, key@),
    {
        let table = self.document_table();
        let series: String = match table.get(key) {
            Some(d) => match &d.document.series {
                Some(s) => s.clone(),
                None => key.to_owned(),
            },
            None => key.to_owned(),
        };
        let ghost names = table.order();
        let ghost keep = |id: Seq<char>| series_of(self@, id) == series@;
        let mut ids: Vec<String> = Vec::new();
        let n: usize = table.len();
        let mut i: usize = 0;
        proof {
            assert(series@ == series_named(self@, key@));
            table.lemma_order();
            order::lemma_filter_none(names, keep);
            assert(ids.deep_view() =~= names.take(0).filter(keep));
        }
        while i < n
            invariant
                i <= n,
                n == names.len(),
                names == table.order(),
                table.wf(),
                keep == (|id: Seq<char>| series_of(self@, id) == series@),
                forall|k: Seq<char>| #[trigger] table@.contains_key(k) ==> table@[k]@ == self@.documents[k],
                ids.deep_view() == names.take(i as int).filter(keep),
            decreases n - i,
        {
            let ghost before = ids.deep_view();
            proof {
                order::lemma_filter_next(names, keep, i as int);
            }
            let belongs: bool = match &table.val_at(i).document.series {
                Some(s) => text::same_text(s, &series),
                None => text::same_text(table.key_at(i), &series),
            };
            if belongs {
                ids.push(table.key_at(i).clone());
                assert(ids.deep_view() =~= before.push(names[i as int]));
            }
            i = i + 1;
        }
        proof {
            order::lemma_filter_none(names, keep);
            order::lemma_filtered(names, keep);
            assert(names.to_set().filter(keep) =~= versions(self@, key@));
        }
        ids
    }

    /// When each of the versions was published, or how long before the end of time.
    fn times_of(&self, ids: &Vec<String>, inverted: bool) -> (times: Vec<u64>)
        requires
            self.wf(),
            forall|i: int| 0 <= i < ids@.len() ==> self@.documents.contains_key((#[trigger] ids@[i])@),
        ensures
            times@.len() == ids@.len(),
            forall|i: int|
                0 <= i < ids@.len() ==> #[trigger] times@[i] == (if inverted {
                    u64::MAX - self@.documents[ids@[i]@].created_ms
                } else {
                    self@.documents[ids@[i]@].created_ms as int
                }),
    {
        let table = self.document_table();
        let mut times: Vec<u64> = Vec::new();
        let mut i: usize = 0;
        while i < ids.len()
            invariant
                i <= ids@.len(),
                table.wf(),
                table@.dom() == self@.documents.dom(),
                forall|k: Seq<char>| #[trigger] table@.contains_key(k) ==> table@[k]@ == self@.documents[k],
                forall|j: int| 0 <= j < ids@.len() ==> self@.documents.contains_key((#[trigger] ids@[j])@),
                times@.len() == i,
                forall|j: int|
                    0 <= j < i ==> #[trigger] times@[j] == (if inverted {
                        u64::MAX - self@.documents[ids@[j]@].created_ms
                    } else {
                        self@.documents[ids@[j]@].created_ms as int
                    }),
            decreases ids.len() - i,
        {
            assert(self@.documents.contains_key(ids@[i as int]@));
            if let Some(d) = table.get(&ids[i]) {
                times.push(if inverted {
                    u64::MAX - d.created_ms
                } else {
                    d.created_ms
                });
            }
            i = i + 1;
        }
        times
    }

    /// The views of the versions, in the given order.
    fn document_views(&self, ids: &Vec<String>, sorted: &Vec<usize>) -> (views: Vec<DocumentView>)
        requires
            self.wf(),
            forall|i: int| 0 <= i < ids@.len() ==> self@.documents.contains_key((#[trigger] ids@[i])@),
            order::lists_all(sorted@.map_values(|i: usize| i as int), ids@.len() as int),
        ensures
            views@.len() == sorted@.len(),
            forall|i: int|
                0 <= i < sorted@.len() ==> (#[trigger] views@[i])@ == document_view(self@, ids@[sorted@[i] as int]@),
    {
        let ghost indices = sorted@.map_values(|i: usize| i as int);
        let mut views: Vec<DocumentView> = Vec::new();
        let mut i: usize = 0;
        while i < sorted.len()
            invariant
                i <= sorted@.len(),
                self.wf(),
                indices == sorted@.map_values(|i: usize| i as int),
                order::lists_all(indices, ids@.len() as int),
                forall|j: int| 0 <= j < ids@.len() ==> self@.documents.contains_key((#[trigger] ids@[j])@),
                views@.len() == i,
                forall|j: int|
                    0 <= j < i ==> (#[trigger] views@[j])@ == document_view(self@, ids@[sorted@[j] as int]@),
            decreases sorted.len() - i,
        {
            let at: usize = sorted[i];
            assert(indices[i as int] == at as int);
            assert(self@.documents.contains_key(ids@[at as int]@));
            if let Some(view) = self.document(&ids[at]) {
                views.push(view);
            }
            i = i + 1;
        }
        views
    }

    /// The views show each of the versions once.
    proof fn lemma_shows_each(
        &self,
        ids: Seq<String>,
        set: Set<Seq<char>>,
        sorted: Seq<usize>,
        views: Seq<DocumentView>,
    )
        requires
            ids.map_values(|s: String| s@).no_duplicates(),
            ids.map_values(|s: String| s@).to_set() == set,
            order::lists_all(sorted.map_values(|i: usize| i as int), ids.len() as int),
            views.len() == sorted.len(),
            forall|i: int|
                0 <= i < sorted.len() ==> (#[trigger] views[i])@ == document_view(self@, ids[sorted[i] as int]@),
        ensures
            shows_each(self@, set, views),
            forall|i: int| 0 <= i < views.len() ==> (#[trigger] views[i]).id@ == ids[sorted[i] as int]@,
    {
        let names = ids.map_values(|s: String| s@);
        let indices = sorted.map_values(|i: usize| i as int);
        order::lemma_arranged(names, indices);
        let shown = views.map_values(|v: DocumentView| v.id@);
        assert forall|i: int| 0 <= i < views.len() implies (#[trigger] views[i]).id@ == ids[sorted[i] as int]@ by {
            assert(views[i]@ == document_view(self@, ids[sorted[i] as int]@));
        }
        assert forall|i: int| 0 <= i < shown.len() implies shown[i] == order::arranged(names, indices)[i] by {
            assert(views[i].id@ == ids[sorted[i] as int]@);
            assert(indices[i] == sorted[i] as int);
        }
        assert(shown =~= order::arranged(names, indices));
    }

    /// Every version that `author` has published, newest first.
    pub fn documents_by(&self, author: &str) -> (views: Vec<DocumentView>)
        requires
            self.wf(),
        ensures
            shows_each(self@, written_by(self@, author@), views@),
            order::newest_first(views@.map_values(|v: DocumentView| (v.created_ms, v.id@))),
    {
        let ids = self.written_ids(author);
        proof {
            assert forall|i: int| 0 <= i < ids@.len() implies self@.documents.contains_key((#[trigger] ids@[i])@) by {
                assert(ids.deep_view()[i] == ids@[i]@);
                assert(ids.deep_view().to_set().contains(ids@[i]@));
            }
        }
        let times = self.times_of(&ids, false);
        let sorted = order::by_time(&times, &ids);
        let views = self.document_views(&ids, &sorted);
        proof {
            assert(ids.deep_view() =~= ids@.map_values(|s: String| s@));
            self.lemma_shows_each(ids@, written_by(self@, author@), sorted@, views@);
            let indices = sorted@.map_values(|i: usize| i as int);
            let stamps = order::stamps_of(times@, ids@);
            let shown = views@.map_values(|v: DocumentView| (v.created_ms, v.id@));
            assert forall|i: int| 0 <= i < shown.len() implies shown[i] == order::arranged(stamps, indices)[i] by {
                assert(views@[i]@ == document_view(self@, ids@[sorted@[i] as int]@));
                assert(indices[i] == sorted@[i] as int);
                assert(times@[indices[i]] == self@.documents[ids@[indices[i]]@].created_ms);
            }
            assert(shown =~= order::arranged(stamps, indices));
        }
        views
    }

    /// All versions of the document that `key` names (any version's id, or the series), oldest first.
    pub fn document_history(&self, key: &str) -> (views: Vec<DocumentView>)
        requires
            self.wf(),
        ensures
            shows_each(self@, versions(self@, key@), views@),
            oldest_first(views@),
    {
        let ids = self.version_ids(key);
        proof {
            assert forall|i: int| 0 <= i < ids@.len() implies self@.documents.contains_key((#[trigger] ids@[i])@) by {
                assert(ids.deep_view()[i] == ids@[i]@);
                assert(ids.deep_view().to_set().contains(ids@[i]@));
            }
        }
        let times = self.times_of(&ids, true);
        let sorted = order::by_time(&times, &ids);
        let views = self.document_views(&ids, &sorted);
        proof {
            assert(ids.deep_view() =~= ids@.map_values(|s: String| s@));
            self.lemma_shows_each(ids@, versions(self@, key@), sorted@, views@);
            let indices = sorted@.map_values(|i: usize| i as int);
            let arranged = order::arranged(order::stamps_of(times@, ids@), indices);
            let shown = views@.map_values(|v: DocumentView| v.id@);
            assert forall|i: int, j: int| 0 <= i < j < views@.len() implies stamp::before(
                (#[trigger] views@[i]).created_ms,
                views@[i].id@,
                (#[trigger] views@[j]).created_ms,
                views@[j].id@,
            ) by {
                assert(views@[i]@ == document_view(self@, ids@[sorted@[i] as int]@));
                assert(views@[j]@ == document_view(self@, ids@[sorted@[j] as int]@));
                assert(indices[i] == sorted@[i] as int && indices[j] == sorted@[j] as int);
                assert(times@[indices[i]] == u64::MAX - self@.documents[ids@[indices[i]]@].created_ms);
                assert(times@[indices[j]] == u64::MAX - self@.documents[ids@[indices[j]]@].created_ms);
                assert(arranged[i] == (times@[indices[i]], ids@[indices[i]]@));
                assert(arranged[j] == (times@[indices[j]], ids@[indices[j]]@));
                assert(shown[i] != shown[j]);
                stamp::lemma_total(views@[i].created_ms, views@[i].id@, views@[j].created_ms, views@[j].id@);
            }
        }
        views
    }

    /// The latest version of the document that `key` names.
    pub fn document_latest(&self, key: &str) -> (view: Option<DocumentView>)
        requires
            self.wf(),
        ensures
            match view {
                Some(v) => is_latest(self@, key@, v),
                None => versions(self@, key@) == Set::<Seq<char>>::empty(),
            },
    {
        let mut history = self.document_history(key);
        let ghost all = history@;
        let ghost shown = all.map_values(|v: DocumentView| v.id@);
        let tip = history.pop();
        proof {
            let ids = versions(self@, key@);
            if all.len() == 0 {
                assert forall|id: Seq<char>| !ids.contains(id) by {
                    if ids.contains(id) {
                        assert(shown.to_set().contains(id));
                        assert(shown.contains(id));
                    }
                }
                assert(ids =~= Set::<Seq<char>>::empty());
            } else {
                let last = all.len() - 1;
                let v = all[last];
                assert(shown[last] == v.id@);
                assert(shown.to_set().contains(v.id@));
                assert forall|id: Seq<char>| #[trigger] ids.contains(id) && id != v.id@ implies stamp::before(
                    self@.documents[id].created_ms,
                    id,
                    v.created_ms,
                    v.id@,
                ) by {
                    assert(shown.to_set().contains(id));
                    let i = choose|i: int| 0 <= i < shown.len() && shown[i] == id;
                    assert(all[i].id@ == id);
                    assert(all[i]@ == document_view(self@, id));
                    assert(stamp::before(all[i].created_ms, all[i].id@, all[last].created_ms, all[last].id@));
                }
            }
        }
        tip
    }
}

/// The diff of two known versions leads from the text of the one to that of the other: without the added
/// lines it reads as the old text, without the removed ones as the new, and no other way of getting there
/// keeps more lines. Of a version that is not known there is no diff.
pub proof fn law_diff_leads_from_version_to_version(
    m: StateModel,
    from: Seq<char>,
    to: Seq<char>,
    other: Seq<DiffLineModel>,
)
    ensures
        m.documents.dom().contains(from) && m.documents.dom().contains(to) ==> {
            &&& diff::old_side(document_diff_of(m, from, to)) == diff::lines_of(m.documents[from].document.body)
            &&& diff::new_side(document_diff_of(m, from, to)) == diff::lines_of(m.documents[to].document.body)
            &&& diff::old_side(other) == diff::lines_of(m.documents[from].document.body) && diff::new_side(other)
                == diff::lines_of(m.documents[to].document.body) ==> diff::kept(other) <= diff::kept(
                document_diff_of(m, from, to),
            )
        },
        !m.documents.dom().contains(from) || !m.documents.dom().contains(to) ==> document_diff_of(m, from, to).len()
            == 0,
{
    if m.documents.contains_key(from) && m.documents.contains_key(to) {
        diff::law_diff_restores_both(
            diff::lines_of(m.documents[from].document.body),
            diff::lines_of(m.documents[to].document.body),
        );
        diff::law_diff_keeps_the_most(other);
    }
}

} // verus!
