//! Content references: the mesh-native scheme `trana://<kind>/<id>`.
use crate::text;
use vstd::prelude::*;

verus! {

/// What a [`Ref`] points at.
#[derive(Debug, Clone, Copy, PartialEq, Eq, Structural)]
pub enum RefKind {
    Post,
    Document,
    Media,
    Stream,
    Profile,
    Board,
    Blob,
}

/// A mesh-native content reference: `trana://<kind>/<id>`.
pub struct Ref {
    pub kind: RefKind,
    pub id: String,
}

/// What a [`Ref`] says.
#[verifier::ext_equal]
pub struct RefModel {
    pub kind: RefKind,
    pub id: Seq<char>,
}

impl View for Ref {
    type V = RefModel;

    open spec fn view(&self) -> RefModel {
        RefModel { kind: self.kind, id: self.id@ }
    }
}

impl DeepView for Ref {
    type V = RefModel;

    open spec fn deep_view(&self) -> RefModel {
        self@
    }
}

impl Clone for Ref {
    fn clone(&self) -> (copy: Self)
        ensures
            copy@ == self@,
    {
        Ref { kind: self.kind, id: self.id.clone() }
    }
}

/// The name of a kind.
pub open spec fn kind_name(kind: RefKind) -> Seq<char> {
    match kind {
        RefKind::Post => "post"@,
        RefKind::Document => "document"@,
        RefKind::Media => "media"@,
        RefKind::Stream => "stream"@,
        RefKind::Profile => "profile"@,
        RefKind::Board => "board"@,
        RefKind::Blob => "blob"@,
    }
}

/// The kind that a name means; `doc` is short for `document`.
pub open spec fn kind_named(name: Seq<char>) -> Option<RefKind> {
    if name == "post"@ {
        Some(RefKind::Post)
    } else if name == "document"@ || name == "doc"@ {
        Some(RefKind::Document)
    } else if name == "media"@ {
        Some(RefKind::Media)
    } else if name == "stream"@ {
        Some(RefKind::Stream)
    } else if name == "profile"@ {
        Some(RefKind::Profile)
    } else if name == "board"@ {
        Some(RefKind::Board)
    } else if name == "blob"@ {
        Some(RefKind::Blob)
    } else {
        None
    }
}

/// What every reference starts with.
pub open spec fn scheme() -> Seq<char> {
    seq!['t', 'r', 'a', 'n', 'a', ':', '/', '/']
}

/// The first place of `c` in `s` from `i` on; the length where there is none.
pub open spec fn find_char(s: Seq<char>, c: char, i: int) -> int
    decreases s.len() - i,
{
    if i >= s.len() {
        s.len() as int
    } else if s[i] == c {
        i
    } else {
        find_char(s, c, i + 1)
    }
}

/// The URI of a reference: `trana://<kind>/<id>`.
pub open spec fn uri_of(r: RefModel) -> Seq<char> {
    scheme() + kind_name(r.kind) + seq!['/'] + r.id
}

/// `s` has the scheme at place `i`.
pub open spec fn scheme_at(s: Seq<char>, i: int) -> bool {
    0 <= i && i + 8 <= s.len() && s.subrange(i, i + 8) == scheme()
}

/// The reference that a URI spells: the scheme, a known kind up to the first slash, and a non-empty id.
pub open spec fn ref_named(uri: Seq<char>) -> Option<RefModel> {
    let slash = find_char(uri, '/', 8);
    if !scheme_at(uri, 0) || slash >= uri.len() {
        None
    } else {
        let id = uri.subrange(slash + 1, uri.len() as int);
        match kind_named(uri.subrange(8, slash)) {
            Some(kind) => if id.len() == 0 {
                None
            } else {
                Some(RefModel { kind, id })
            },
            None => None,
        }
    }
}

impl RefKind {
    /// The name of the kind.
    pub fn as_str(self) -> (name: &'static str)
        ensures
            name@ == kind_name(self),
    {
        match self {
            RefKind::Post => "post",
            RefKind::Document => "document",
            RefKind::Media => "media",
            RefKind::Stream => "stream",
            RefKind::Profile => "profile",
            RefKind::Board => "board",
            RefKind::Blob => "blob",
        }
    }

    /// The kind that a name means.
    pub fn parse(s: &str) -> (kind: Option<RefKind>)
        ensures
            kind == kind_named(s@),
    {
        if text::same_text(s, "post") {
            Some(RefKind::Post)
        } else if text::same_text(s, "document") || text::same_text(s, "doc") {
            Some(RefKind::Document)
        } else if text::same_text(s, "media") {
            Some(RefKind::Media)
        } else if text::same_text(s, "stream") {
            Some(RefKind::Stream)
        } else if text::same_text(s, "profile") {
            Some(RefKind::Profile)
        } else if text::same_text(s, "board") {
            Some(RefKind::Board)
        } else if text::same_text(s, "blob") {
            Some(RefKind::Blob)
        } else {
            None
        }
    }
}

/// Does the scheme stand at place `i`?
fn has_scheme(chars: &Vec<char>, i: usize) -> (yes: bool)
    requires
        i <= chars@.len(),
    ensures
        yes == scheme_at(chars@, i as int),
{
    if chars.len() - i < 8 {
        return false;
    }
    let yes: bool = chars[i] == 't' && chars[i + 1] == 'r' && chars[i + 2] == 'a' && chars[i + 3] == 'n' && chars[i
        + 4] == 'a' && chars[i + 5] == ':' && chars[i + 6] == '/' && chars[i + 7] == '/';
    proof {
        let found = chars@.subrange(i as int, i + 8);
        assert(forall|j: int| 0 <= j < 8 ==> #[trigger] found[j] == chars@[i + j]);
        if yes {
            assert(found =~= scheme());
        } else {
            assert(found[0] == 't' && found[1] == 'r' && found[2] == 'a' && found[3] == 'n' && found[4] == 'a'
                && found[5] == ':' && found[6] == '/' && found[7] == '/' ==> yes);
            assert(scheme()[0] == 't' && scheme()[1] == 'r' && scheme()[2] == 'a' && scheme()[3] == 'n'
                && scheme()[4] == 'a' && scheme()[5] == ':' && scheme()[6] == '/' && scheme()[7] == '/');
        }
    }
    yes
}

impl Ref {
    /// A reference of the given kind.
    pub fn new(kind: RefKind, id: &str) -> (r: Ref)
        ensures
            r@ == (RefModel { kind, id: id@ }),
    {
        Ref { kind, id: id.to_owned() }
    }

    /// A post or comment.
    pub fn post(id: &str) -> (r: Ref)
        ensures
            r@ == (RefModel { kind: RefKind::Post, id: id@ }),
    {
        Ref::new(RefKind::Post, id)
    }

    /// A document.
    pub fn document(id: &str) -> (r: Ref)
        ensures
            r@ == (RefModel { kind: RefKind::Document, id: id@ }),
    {
        Ref::new(RefKind::Document, id)
    }

    /// A media descriptor.
    pub fn media(id: &str) -> (r: Ref)
        ensures
            r@ == (RefModel { kind: RefKind::Media, id: id@ }),
    {
        Ref::new(RefKind::Media, id)
    }

    /// A live stream.
    pub fn stream(id: &str) -> (r: Ref)
        ensures
            r@ == (RefModel { kind: RefKind::Stream, id: id@ }),
    {
        Ref::new(RefKind::Stream, id)
    }

    /// A user profile, by NodeId.
    pub fn profile(node_id: &str) -> (r: Ref)
        ensures
            r@ == (RefModel { kind: RefKind::Profile, id: node_id@ }),
    {
        Ref::new(RefKind::Profile, node_id)
    }

    /// A board, by name.
    pub fn board(name: &str) -> (r: Ref)
        ensures
            r@ == (RefModel { kind: RefKind::Board, id: name@ }),
    {
        Ref::new(RefKind::Board, name)
    }

    /// A raw content-addressed object.
    pub fn blob(cid: &str) -> (r: Ref)
        ensures
            r@ == (RefModel { kind: RefKind::Blob, id: cid@ }),
    {
        Ref::new(RefKind::Blob, cid)
    }

    /// The canonical `trana://<kind>/<id>` URI.
    pub fn to_uri(&self) -> (uri: String)
        ensures
            uri@ == uri_of(self@),
    {
        proof {
            reveal_strlit("trana://");
            reveal_strlit("/");
            assert("trana://"@ =~= scheme());
            assert("/"@ =~= seq!['/']);
        }
        let mut uri = "trana://".to_owned();
        uri.append(self.kind.as_str());
        uri.append("/");
        uri.append(&self.id);
        uri
    }

    /// Parse a `trana://<kind>/<id>` URI. Returns `None` if it is not a well-formed reference.
    pub fn parse(uri: &str) -> (r: Option<Ref>)
        ensures
            r.deep_view() == ref_named(uri@),
    {
        let chars = text::chars_of(uri);
        if !has_scheme(&chars, 0) {
            return None;
        }
        let n: usize = chars.len();
        let mut slash: usize = 8;
        while slash < n && chars[slash] != '/'
            invariant
                8 <= slash <= n,
                n == chars@.len(),
                find_char(chars@, '/', 8) == find_char(chars@, '/', slash as int),
            decreases n - slash,
        {
            slash = slash + 1;
        }
        if slash >= n {
            return None;
        }
        match RefKind::parse(uri.substring_char(8, slash)) {
            Some(kind) => {
                if slash + 1 == n {
                    return None;
                }
                Some(Ref { kind, id: uri.substring_char(slash + 1, n).to_owned() })
            },
            None => None,
        }
    }
}

proof fn lemma_find_char(s: Seq<char>, c: char, i: int, k: int)
    requires
        0 <= i <= k < s.len(),
        s[k] == c,
        forall|j: int| i <= j < k ==> s[j] != c,
    ensures
        find_char(s, c, i) == k,
    decreases k - i,
{
    if i < k {
        lemma_find_char(s, c, i + 1, k);
    }
}

proof fn lemma_find_char_range(s: Seq<char>, c: char, i: int)
    requires
        0 <= i <= s.len(),
    ensures
        i <= find_char(s, c, i) <= s.len(),
        find_char(s, c, i) < s.len() ==> s[find_char(s, c, i)] == c,
    decreases s.len() - i,
{
    if i < s.len() && s[i] != c {
        lemma_find_char_range(s, c, i + 1);
    }
}

proof fn lemma_kind_names(kind: RefKind)
    ensures
        kind_named(kind_name(kind)) == Some(kind),
        forall|j: int| 0 <= j < kind_name(kind).len() ==> kind_name(kind)[j] != '/',
{
    reveal_strlit("post");
    reveal_strlit("document");
    reveal_strlit("doc");
    reveal_strlit("media");
    reveal_strlit("stream");
    reveal_strlit("profile");
    reveal_strlit("board");
    reveal_strlit("blob");
    assert("post"@.len() == 4 && "document"@.len() == 8 && "media"@.len() == 5 && "stream"@.len() == 6
        && "profile"@.len() == 7 && "board"@.len() == 5 && "blob"@.len() == 4 && "doc"@.len() == 3);
    assert("post"@[0] == 'p' && "blob"@[0] == 'b' && "media"@[0] == 'm' && "board"@[0] == 'b');
}

/// Round trip: the URI of a reference with a non-empty id parses back to the reference.
pub proof fn law_uri_parses_back(r: RefModel)
    requires
        r.id.len() > 0,
    ensures
        ref_named(uri_of(r)) == Some(r),
{
    let uri = uri_of(r);
    let name = kind_name(r.kind);
    let slash = 8 + name.len() as int;
    lemma_kind_names(r.kind);
    assert(uri.subrange(0, 8) =~= scheme());
    assert(uri[slash] == '/');
    assert forall|j: int| 8 <= j < slash implies uri[j] != '/' by {
        assert(uri[j] == name[j - 8]);
    }
    lemma_find_char(uri, '/', 8, slash);
    assert(uri.subrange(8, slash) =~= name);
    assert(uri.subrange(slash + 1, uri.len() as int) =~= r.id);
}

/// A parsed URI is the URI of what it names, but for the short form `doc`; and what it names has a
/// non-empty id.
pub proof fn law_parse_is_faithful(uri: Seq<char>)
    requires
        ref_named(uri) is Some,
    ensures
        ref_named(uri)->0.id.len() > 0,
        uri.subrange(8, find_char(uri, '/', 8)) != "doc"@ ==> uri_of(ref_named(uri)->0) == uri,
        ref_named(uri_of(ref_named(uri)->0)) == ref_named(uri),
{
    let r = ref_named(uri)->0;
    let slash = find_char(uri, '/', 8);
    lemma_find_char_range(uri, '/', 8);
    law_uri_parses_back(r);
    if uri.subrange(8, slash) != "doc"@ {
        assert(kind_name(r.kind) == uri.subrange(8, slash));
        assert(uri_of(r) =~= uri);
    }
}

// ----- references embedded in text -----

/// A character that ends a reference: white space, or one that closes a markdown construct.
pub open spec fn ends_ref(c: char) -> bool {
    let n = c as int;
    (9 <= n <= 13) || n == 32 || n == 0x85 || n == 0xA0 || c == ')' || c == ']' || c == '>' || c == '"' || c == '\''
        || c == '`' || c == '|'
}

/// Punctuation that is not taken as the last character of a reference.
pub open spec fn trailing(c: char) -> bool {
    c == '.' || c == ',' || c == ';' || c == ':'
}

/// The first place from `i` on where the scheme stands; the length where there is none.
pub open spec fn find_scheme(s: Seq<char>, i: int) -> int
    decreases s.len() - i,
{
    if i >= s.len() {
        s.len() as int
    } else if scheme_at(s, i) {
        i
    } else {
        find_scheme(s, i + 1)
    }
}

/// The first place from `i` on of a character that ends a reference; the length where there is none.
pub open spec fn find_end(s: Seq<char>, i: int) -> int
    decreases s.len() - i,
{
    if i >= s.len() {
        s.len() as int
    } else if ends_ref(s[i]) {
        i
    } else {
        find_end(s, i + 1)
    }
}

/// The text without its trailing punctuation.
pub open spec fn trimmed(s: Seq<char>) -> Seq<char>
    decreases s.len(),
{
    if s.len() > 0 && trailing(s.last()) {
        trimmed(s.drop_last())
    } else {
        s
    }
}

/// Every stretch of text from `i` on that starts with the scheme, up to what ends it, in order.
pub open spec fn candidates(s: Seq<char>, i: int) -> Seq<Seq<char>>
    decreases s.len() - i,
{
    let start = find_scheme(s, i);
    let end = find_end(s, start);
    if i < 0 || start >= s.len() || !(i < end <= s.len()) {
        Seq::empty()
    } else {
        seq![trimmed(s.subrange(start, end))] + candidates(s, end)
    }
}

/// The references among the candidates, in order.
pub open spec fn refs_among(found: Seq<Seq<char>>) -> Seq<RefModel>
    decreases found.len(),
{
    if found.len() == 0 {
        Seq::empty()
    } else {
        match ref_named(found.last()) {
            Some(r) => refs_among(found.drop_last()).push(r),
            None => refs_among(found.drop_last()),
        }
    }
}

/// Each reference once, where it first stands.
pub open spec fn distinct(refs: Seq<RefModel>) -> Seq<RefModel>
    decreases refs.len(),
{
    if refs.len() == 0 {
        Seq::empty()
    } else {
        let before = distinct(refs.drop_last());
        if before.contains(refs.last()) {
            before
        } else {
            before.push(refs.last())
        }
    }
}

/// The references embedded in a text, in order, each once.
pub open spec fn embedded_refs(s: Seq<char>) -> Seq<RefModel> {
    distinct(refs_among(candidates(s, 0)))
}

fn ends_reference(c: char) -> (yes: bool)
    ensures
        yes == ends_ref(c),
{
    let n: u32 = c as u32;
    (9 <= n && n <= 13) || n == 32 || n == 0x85 || n == 0xA0 || c == ')' || c == ']' || c == '>' || c == '"' || c
        == '\'' || c == '`' || c == '|'
}

proof fn lemma_find_scheme(s: Seq<char>, i: int)
    requires
        0 <= i <= s.len(),
    ensures
        i <= find_scheme(s, i) <= s.len(),
        find_scheme(s, i) < s.len() ==> scheme_at(s, find_scheme(s, i)),
    decreases s.len() - i,
{
    if i < s.len() && !scheme_at(s, i) {
        lemma_find_scheme(s, i + 1);
    }
}

/// The scheme itself holds no character that ends a reference.
proof fn lemma_end_after_scheme(s: Seq<char>, start: int)
    requires
        scheme_at(s, start),
    ensures
        find_end(s, start) >= start + 8,
        find_end(s, start) <= s.len(),
{
    let found = s.subrange(start, start + 8);
    assert forall|j: int| start <= j < start + 8 implies !ends_ref(#[trigger] s[j]) by {
        assert(found[j - start] == s[j]);
        assert(scheme()[j - start] == s[j]);
    }
    lemma_find_end(s, start, start + 8);
}

proof fn lemma_find_end(s: Seq<char>, i: int, k: int)
    requires
        0 <= i <= k <= s.len(),
        forall|j: int| i <= j < k ==> !ends_ref(#[trigger] s[j]),
    ensures
        k <= find_end(s, i) <= s.len(),
        find_end(s, i) == find_end(s, k),
    decreases s.len() - i,
{
    if i < k {
        lemma_find_end(s, i + 1, k);
    } else if i < s.len() && !ends_ref(s[i]) {
        lemma_find_end(s, i + 1, i + 1);
    }
}

/// Is `r` among the references found so far?
fn already_found(found: &Vec<Ref>, r: &Ref) -> (yes: bool)
    ensures
        yes == found.deep_view().contains(r@),
{
    let mut i: usize = 0;
    while i < found.len()
        invariant
            i <= found@.len(),
            forall|j: int| 0 <= j < i ==> found.deep_view()[j] != r@,
        decreases found.len() - i,
    {
        assert(found.deep_view()[i as int] == found@[i as int]@);
        if found[i].kind == r.kind && text::same_text(&found[i].id, &r.id) {
            return true;
        }
        i = i + 1;
    }
    false
}

/// Extract every `trana://...` reference embedded in a markdown body, in order, each once.
pub fn extract_refs(markdown: &str) -> (refs: Vec<Ref>)
    ensures
        refs.deep_view() == embedded_refs(markdown@),
{
    let chars = text::chars_of(markdown);
    let ghost s = markdown@;
    let n: usize = chars.len();
    let mut out: Vec<Ref> = Vec::new();
    let mut i: usize = 0;
    let ghost mut done: Seq<Seq<char>> = Seq::empty();
    proof {
        assert(out.deep_view() =~= distinct(refs_among(done)));
        assert(done + candidates(s, 0) =~= candidates(s, 0));
    }
    while i < n
        invariant
            i <= n,
            n == s.len(),
            s == markdown@,
            chars@ == s,
            candidates(s, 0) == done + candidates(s, i as int),
            out.deep_view() == distinct(refs_among(done)),
        decreases n - i,
    {
        let ghost from = i as int;
        let mut start: usize = i;
        proof {
            lemma_find_scheme(s, from);
        }
        while start < n && !has_scheme(&chars, start)
            invariant
                from <= start <= n,
                n == s.len(),
                chars@ == s,
                find_scheme(s, from) == find_scheme(s, start as int),
            decreases n - start,
        {
            start = start + 1;
        }
        if start >= n {
            proof {
                assert(candidates(s, from) =~= Seq::empty());
                assert(done + candidates(s, from) =~= done);
            }
            return out;
        }
        proof {
            lemma_end_after_scheme(s, start as int);
        }
        let mut end: usize = start;
        while end < n && !ends_reference(chars[end])
            invariant
                start <= end <= n,
                n == s.len(),
                chars@ == s,
                find_end(s, start as int) == find_end(s, end as int),
            decreases n - end,
        {
            end = end + 1;
        }
        let mut last: usize = end;
        let ghost whole = s.subrange(start as int, end as int);
        while last > start && (chars[last - 1] == '.' || chars[last - 1] == ',' || chars[last - 1] == ';' || chars[last
            - 1] == ':')
            invariant
                start <= last <= end <= n,
                n == s.len(),
                chars@ == s,
                trimmed(whole) == trimmed(s.subrange(start as int, last as int)),
            decreases last - start,
        {
            assert(s.subrange(start as int, last as int).drop_last() =~= s.subrange(start as int, last - 1));
            assert(s.subrange(start as int, last as int).last() == s[last - 1]);
            last = last - 1;
        }
        let ghost token = trimmed(whole);
        proof {
            if last > start {
                assert(s.subrange(start as int, last as int).last() == s[last - 1]);
            }
            assert(token == s.subrange(start as int, last as int));
            assert(candidates(s, from) == seq![token] + candidates(s, end as int));
            assert(done + (seq![token] + candidates(s, end as int)) =~= done.push(token) + candidates(s, end as int));
            assert(done.push(token).drop_last() =~= done);
        }
        let ghost before = out.deep_view();
        if let Some(r) = Ref::parse(markdown.substring_char(start, last)) {
            proof {
                let refs = refs_among(done).push(r@);
                assert(refs.drop_last() =~= refs_among(done));
            }
            if !already_found(&out, &r) {
                let ghost model = r@;
                out.push(r);
                assert(out.deep_view() =~= before.push(model));
            }
        }
        proof {
            done = done.push(token);
        }
        i = end;
    }
    proof {
        assert(candidates(s, n as int) =~= Seq::empty());
        assert(done + candidates(s, n as int) =~= done);
    }
    out
}

/// Nothing is listed twice, and everything listed has a non-empty id.
pub proof fn law_extracted_refs_are_distinct(s: Seq<char>)
    ensures
        embedded_refs(s).no_duplicates(),
        forall|i: int| 0 <= i < embedded_refs(s).len() ==> (#[trigger] embedded_refs(s)[i]).id.len() > 0,
{
    lemma_distinct(refs_among(candidates(s, 0)));
    lemma_refs_have_ids(candidates(s, 0));
    let found = refs_among(candidates(s, 0));
    assert forall|i: int| 0 <= i < embedded_refs(s).len() implies (#[trigger] embedded_refs(s)[i]).id.len() > 0 by {
        assert(embedded_refs(s).contains(embedded_refs(s)[i]));
        assert(found.contains(embedded_refs(s)[i]));
    }
}

proof fn lemma_distinct(refs: Seq<RefModel>)
    ensures
        distinct(refs).no_duplicates(),
        forall|r: RefModel| #[trigger] distinct(refs).contains(r) <==> refs.contains(r),
    decreases refs.len(),
{
    if refs.len() > 0 {
        let shorter = refs.drop_last();
        lemma_distinct(shorter);
        let before = distinct(shorter);
        let after = distinct(refs);
        assert(refs =~= shorter.push(refs.last()));
        assert forall|r: RefModel| #[trigger] after.contains(r) <==> refs.contains(r) by {
            assert(before.contains(r) <==> shorter.contains(r));
            if shorter.contains(r) {
                let i = choose|i: int| 0 <= i < shorter.len() && shorter[i] == r;
                assert(refs[i] == r);
            }
            if refs.contains(r) {
                let i = choose|i: int| 0 <= i < refs.len() && refs[i] == r;
                if i < shorter.len() {
                    assert(shorter[i] == r);
                }
            }
            if before.contains(r) {
                let i = choose|i: int| 0 <= i < before.len() && before[i] == r;
                assert(after[i] == r);
            }
            if after.contains(r) {
                let i = choose|i: int| 0 <= i < after.len() && after[i] == r;
                if i < before.len() {
                    assert(before[i] == r);
                }
            }
            assert(refs[refs.len() - 1] == refs.last());
            if !before.contains(refs.last()) {
                assert(after[after.len() - 1] == refs.last());
            }
        }
    }
}

proof fn lemma_refs_have_ids(found: Seq<Seq<char>>)
    ensures
        forall|r: RefModel| #[trigger] refs_among(found).contains(r) ==> r.id.len() > 0,
    decreases found.len(),
{
    if found.len() > 0 {
        lemma_refs_have_ids(found.drop_last());
        let before = refs_among(found.drop_last());
        let after = refs_among(found);
        assert forall|r: RefModel| #[trigger] after.contains(r) implies r.id.len() > 0 by {
            let i = choose|i: int| 0 <= i < after.len() && after[i] == r;
            if i < before.len() {
                assert(before[i] == r);
                assert(before.contains(r));
            }
        }
    }
}

proof fn lemma_find_scheme_bound(s: Seq<char>, i: int, p: int)
    requires
        0 <= i <= p,
        scheme_at(s, p),
    ensures
        i <= find_scheme(s, i) <= p,
    decreases p - i,
{
    if i < p && !scheme_at(s, i) {
        lemma_find_scheme_bound(s, i + 1, p);
    }
}

proof fn lemma_find_end_bound(s: Seq<char>, i: int, p: int)
    requires
        0 <= i <= p < s.len(),
        ends_ref(s[p]),
    ensures
        i <= find_end(s, i) <= p,
    decreases p - i,
{
    if i < p && !ends_ref(s[i]) {
        lemma_find_end_bound(s, i + 1, p);
    }
}

/// The scan reaches every scheme that stands at the beginning or behind a character that ends a
/// reference.
proof fn lemma_scan_reaches(s: Seq<char>, i: int, p: int)
    requires
        0 <= i <= p,
        scheme_at(s, p),
        i < p ==> ends_ref(s[p - 1]),
    ensures
        candidates(s, i).contains(trimmed(s.subrange(p, find_end(s, p)))),
    decreases p - i,
{
    let start = find_scheme(s, i);
    lemma_find_scheme_bound(s, i, p);
    lemma_find_scheme(s, i);
    lemma_end_after_scheme(s, start);
    let end = find_end(s, start);
    let token = trimmed(s.subrange(start, end));
    let all = candidates(s, i);
    assert(all == seq![token] + candidates(s, end));
    if start == p {
        assert(all[0] == token);
    } else {
        lemma_find_end_bound(s, start, p - 1);
        lemma_scan_reaches(s, end, p);
        let rest = candidates(s, end);
        let wanted = trimmed(s.subrange(p, find_end(s, p)));
        let k = choose|k: int| 0 <= k < rest.len() && rest[k] == wanted;
        assert(all[k + 1] == wanted);
    }
}

proof fn lemma_refs_among(found: Seq<Seq<char>>, token: Seq<char>)
    requires
        found.contains(token),
        ref_named(token) is Some,
    ensures
        refs_among(found).contains(ref_named(token)->0),
    decreases found.len(),
{
    let r = ref_named(token)->0;
    let shorter = found.drop_last();
    let after = refs_among(found);
    if found.last() == token {
        assert(after[after.len() - 1] == r);
    } else {
        let k = choose|k: int| 0 <= k < found.len() && found[k] == token;
        assert(shorter[k] == token);
        lemma_refs_among(shorter, token);
        let before = refs_among(shorter);
        let i = choose|i: int| 0 <= i < before.len() && before[i] == r;
        assert(after[i] == r);
    }
}

/// What is written is found: a reference written out in a text, at its beginning or behind a character
/// that ends a reference, and followed by such a character or by the text's end, is extracted. Its id
/// must hold no such character and not end in trailing punctuation.
pub proof fn law_written_ref_is_found(before: Seq<char>, r: RefModel, after: Seq<char>)
    requires
        r.id.len() > 0,
        forall|i: int| 0 <= i < r.id.len() ==> !ends_ref(#[trigger] r.id[i]),
        !trailing(r.id.last()),
        before.len() == 0 || ends_ref(before.last()),
        after.len() == 0 || ends_ref(after[0]),
    ensures
        embedded_refs(before + uri_of(r) + after).contains(r),
{
    let uri = uri_of(r);
    let s = before + uri + after;
    let p = before.len() as int;
    let q = p + uri.len();
    assert(s.subrange(p, p + 8) =~= scheme());
    if p > 0 {
        assert(s[p - 1] == before.last());
    }
    lemma_scan_reaches(s, 0, p);
    lemma_kind_chars(r.kind);
    let name = kind_name(r.kind);
    assert forall|j: int| p <= j < q implies !ends_ref(#[trigger] s[j]) by {
        let k = j - p;
        assert(s[j] == uri[k]);
        if k < 8 {
            assert(uri[k] == scheme()[k]);
        } else if k < 8 + name.len() {
            assert(uri[k] == name[k - 8]);
        } else if k > 8 + name.len() {
            assert(uri[k] == r.id[k - 9 - name.len()]);
        }
    }
    lemma_find_end(s, p, q);
    if after.len() > 0 {
        assert(s[q] == after[0]);
    }
    assert(find_end(s, q) == q);
    assert(s.subrange(p, q) =~= uri);
    assert(uri.last() == r.id.last());
    assert(trimmed(uri) == uri);
    law_uri_parses_back(r);
    lemma_refs_among(candidates(s, 0), uri);
    lemma_distinct(refs_among(candidates(s, 0)));
}

proof fn lemma_kind_chars(kind: RefKind)
    ensures
        forall|j: int| 0 <= j < kind_name(kind).len() ==> !ends_ref(#[trigger] kind_name(kind)[j]),
{
    match kind {
        RefKind::Post => {
            reveal_strlit("post");
        },
        RefKind::Document => {
            reveal_strlit("document");
        },
        RefKind::Media => {
            reveal_strlit("media");
        },
        RefKind::Stream => {
            reveal_strlit("stream");
        },
        RefKind::Profile => {
            reveal_strlit("profile");
        },
        RefKind::Board => {
            reveal_strlit("board");
        },
        RefKind::Blob => {
            reveal_strlit("blob");
        },
    }
}

/// A reference is written as `trana://`, the name of its kind, a slash, and its id.
pub proof fn law_uri_is_written_out(r: RefModel)
    ensures
        uri_of(r) == "trana://"@ + (match r.kind {
            RefKind::Post => "post"@,
            RefKind::Document => "document"@,
            RefKind::Media => "media"@,
            RefKind::Stream => "stream"@,
            RefKind::Profile => "profile"@,
            RefKind::Board => "board"@,
            RefKind::Blob => "blob"@,
        }) + "/"@ + r.id,
{
    reveal_strlit("trana://");
    reveal_strlit("/");
    assert("trana://"@ =~= scheme());
    assert("/"@ =~= seq!['/']);
}

/// What closes a reference in a text: a blank, a line end, or a closing bracket or quote; never a letter, a
/// digit, a slash, a hyphen or a dot.
pub proof fn law_references_end_at_blanks_and_brackets(c: char)
    ensures
        c == ' ' || c == '\t' || c == '\n' || c == '\r' || c == ')' || c == ']' || c == '>' || c == '"' || c == '\''
            || c == '`' || c == '|' ==> ends_ref(c),
        ('a' <= c <= 'z') || ('A' <= c <= 'Z') || ('0' <= c <= '9') || c == '/' || c == '-' || c == '_' || c == '.' || c
            == ':' ==> !ends_ref(c),
        trailing(c) <==> c == '.' || c == ',' || c == ';' || c == ':',
{
}

proof fn lemma_trimmed(s: Seq<char>)
    ensures
        trimmed(s).len() <= s.len(),
        trimmed(s) == s.take(trimmed(s).len() as int),
    decreases s.len(),
{
    if s.len() > 0 && trailing(s.last()) {
        lemma_trimmed(s.drop_last());
        assert(s.drop_last().take(trimmed(s).len() as int) =~= s.take(trimmed(s).len() as int));
    } else {
        assert(s.take(s.len() as int) =~= s);
    }
}

/// The text holds the stretch.
pub open spec fn holds_stretch(s: Seq<char>, stretch: Seq<char>) -> bool {
    exists|p: int, q: int| 0 <= p <= q <= s.len() && #[trigger] s.subrange(p, q) == stretch
}

proof fn lemma_candidates_stand(s: Seq<char>, i: int)
    requires
        0 <= i,
    ensures
        forall|c: Seq<char>| #[trigger] candidates(s, i).contains(c) ==> holds_stretch(s, c),
    decreases s.len() - i,
{
    let start = find_scheme(s, i);
    let end = find_end(s, start);
    let all = candidates(s, i);
    if !(i < 0 || start >= s.len() || !(i < end <= s.len())) {
        lemma_candidates_stand(s, end);
        if i <= s.len() {
            lemma_find_scheme(s, i);
        }
        lemma_end_after_scheme(s, start);
        let whole = s.subrange(start, end);
        let token = trimmed(whole);
        lemma_trimmed(whole);
        assert(s.subrange(start, start + token.len()) =~= whole.take(token.len() as int));
        assert forall|c: Seq<char>| #[trigger] all.contains(c) implies holds_stretch(s, c) by {
            let k = choose|k: int| 0 <= k < all.len() && all[k] == c;
            if k == 0 {
                assert(c == token);
                assert(s.subrange(start, start + token.len()) == c);
            } else {
                assert(candidates(s, end)[k - 1] == c);
                assert(candidates(s, end).contains(c));
            }
        }
    }
}

proof fn lemma_refs_come_from(found: Seq<Seq<char>>, r: RefModel)
    requires
        refs_among(found).contains(r),
    ensures
        exists|k: int| 0 <= k < found.len() && ref_named(#[trigger] found[k]) == Some(r),
    decreases found.len(),
{
    if found.len() > 0 {
        let shorter = found.drop_last();
        let before = refs_among(shorter);
        let after = refs_among(found);
        let i = choose|i: int| 0 <= i < after.len() && after[i] == r;
        if i < before.len() {
            assert(before[i] == r);
            lemma_refs_come_from(shorter, r);
            let k = choose|k: int| 0 <= k < shorter.len() && ref_named(#[trigger] shorter[k]) == Some(r);
            assert(found[k] == shorter[k]);
        } else {
            assert(ref_named(found[found.len() - 1]) == Some(r));
        }
    }
}

/// Nothing is made up: every reference that is extracted from a text is spelled out in it.
pub proof fn law_extracted_refs_stand_in_the_text(s: Seq<char>, r: RefModel)
    requires
        embedded_refs(s).contains(r),
    ensures
        exists|uri: Seq<char>| #[trigger] holds_stretch(s, uri) && ref_named(uri) == Some(r),
{
    let found = candidates(s, 0);
    lemma_distinct(refs_among(found));
    lemma_refs_come_from(found, r);
    lemma_candidates_stand(s, 0);
    let k = choose|k: int| 0 <= k < found.len() && ref_named(#[trigger] found[k]) == Some(r);
    assert(found.contains(found[k]));
    assert(holds_stretch(s, found[k]));
}

/// Punctuation behind a reference is not taken for a part of it: a reference that ends a clause or a sentence
/// is extracted as it is without the stop.
pub proof fn law_punctuation_is_left_out(before: Seq<char>, r: RefModel, stop: char, after: Seq<char>)
    requires
        r.id.len() > 0,
        forall|i: int| 0 <= i < r.id.len() ==> !ends_ref(#[trigger] r.id[i]),
        !trailing(r.id.last()),
        stop == '.' || stop == ',' || stop == ';' || stop == ':',
        before.len() == 0 || before.last() == ' ' || before.last() == '\n',
        after.len() == 0 || after[0] == ' ' || after[0] == '\n',
    ensures
        embedded_refs(before + uri_of(r) + seq![stop] + after).contains(r),
{
    let uri = uri_of(r);
    let s = before + uri + seq![stop] + after;
    let p = before.len() as int;
    let q = p + uri.len() + 1;
    assert(s.subrange(p, p + 8) =~= scheme());
    if p > 0 {
        assert(s[p - 1] == before.last());
    }
    lemma_scan_reaches(s, 0, p);
    lemma_kind_chars(r.kind);
    let name = kind_name(r.kind);
    assert forall|j: int| p <= j < q implies !ends_ref(#[trigger] s[j]) by {
        let k = j - p;
        if k == uri.len() {
            assert(s[j] == stop);
        } else {
            assert(s[j] == uri[k]);
            if k < 8 {
                assert(uri[k] == scheme()[k]);
            } else if k < 8 + name.len() {
                assert(uri[k] == name[k - 8]);
            } else if k > 8 + name.len() {
                assert(uri[k] == r.id[k - 9 - name.len()]);
            }
        }
    }
    lemma_find_end(s, p, q);
    if after.len() > 0 {
        assert(s[q] == after[0]);
    }
    assert(find_end(s, q) == q);
    let token = s.subrange(p, q);
    assert(token =~= uri.push(stop));
    assert(token.drop_last() =~= uri);
    assert(uri.last() == r.id.last());
    assert(trimmed(uri) == uri);
    assert(trimmed(token) == uri);
    law_uri_parses_back(r);
    lemma_refs_among(candidates(s, 0), uri);
    lemma_distinct(refs_among(candidates(s, 0)));
}

/// The name by which each kind is known in a URI: its own, and `doc` for a document; no other name is known.
pub proof fn law_kinds_are_known_by_name(name: Seq<char>)
    ensures
        kind_named(name) == Some(RefKind::Post) <==> name == "post"@,
        kind_named(name) == Some(RefKind::Document) <==> name == "document"@ || name == "doc"@,
        kind_named(name) == Some(RefKind::Media) <==> name == "media"@,
        kind_named(name) == Some(RefKind::Stream) <==> name == "stream"@,
        kind_named(name) == Some(RefKind::Profile) <==> name == "profile"@,
        kind_named(name) == Some(RefKind::Board) <==> name == "board"@,
        kind_named(name) == Some(RefKind::Blob) <==> name == "blob"@,
{
    lemma_kind_names(RefKind::Post);
    lemma_kind_names(RefKind::Document);
    lemma_kind_names(RefKind::Media);
    lemma_kind_names(RefKind::Stream);
    lemma_kind_names(RefKind::Profile);
    lemma_kind_names(RefKind::Board);
    lemma_kind_names(RefKind::Blob);
    reveal_strlit("post");
    reveal_strlit("document");
    reveal_strlit("doc");
    reveal_strlit("media");
    reveal_strlit("stream");
    reveal_strlit("profile");
    reveal_strlit("board");
    reveal_strlit("blob");
    assert("doc"@.len() == 3 && "post"@.len() == 4 && "media"@.len() == 5 && "stream"@.len() == 6 && "profile"@.len()
        == 7 && "board"@.len() == 5 && "blob"@.len() == 4 && "document"@.len() == 8);
    assert("post"@[0] == 'p' && "blob"@[0] == 'b' && "media"@[0] == 'm' && "board"@[0] == 'b');
}

/// Where a scheme begins is found alike in a text and in one that goes on after a blank, as long as it begins in
/// the first.
proof fn lemma_scheme_carries(s: Seq<char>, more: Seq<char>, i: int)
    requires
        s.len() < more.len(),
        more.take(s.len() as int) == s,
        more[s.len() as int] == ' ',
        0 <= i <= s.len(),
    ensures
        find_scheme(s, i) < s.len() ==> find_scheme(more, i) == find_scheme(s, i),
        i <= find_scheme(s, i) <= s.len(),
    decreases s.len() - i,
{
    if i < s.len() {
        assert(scheme_at(s, i) == scheme_at(more, i)) by {
            if i + 8 <= s.len() {
                assert(s.subrange(i, i + 8) =~= more.subrange(i, i + 8));
            } else if scheme_at(more, i) {
                assert(more.subrange(i, i + 8)[s.len() - i] == ' ');
                assert(scheme()[s.len() - i] != ' ');
            }
        }
        if !scheme_at(s, i) {
            lemma_scheme_carries(s, more, i + 1);
        }
    }
}

/// Where a stretch ends is found alike in a text and in one that goes on after a blank.
proof fn lemma_end_carries(s: Seq<char>, more: Seq<char>, i: int)
    requires
        s.len() < more.len(),
        more.take(s.len() as int) == s,
        more[s.len() as int] == ' ',
        0 <= i <= s.len(),
    ensures
        find_end(more, i) == find_end(s, i),
        i <= find_end(s, i) <= s.len(),
    decreases s.len() - i,
{
    if i < s.len() {
        assert(more[i] == more.take(s.len() as int)[i]);
        if !ends_ref(s[i]) {
            lemma_end_carries(s, more, i + 1);
        }
    }
}

/// What a text holds stands first in one that goes on after a blank.
proof fn lemma_candidates_carry(s: Seq<char>, more: Seq<char>, i: int) -> (rest: Seq<Seq<char>>)
    requires
        s.len() < more.len(),
        more.take(s.len() as int) == s,
        more[s.len() as int] == ' ',
        0 <= i <= s.len(),
    ensures
        candidates(more, i) == candidates(s, i) + rest,
    decreases s.len() - i,
{
    let start = find_scheme(s, i);
    lemma_scheme_carries(s, more, i);
    lemma_end_carries(s, more, start);
    let end = find_end(s, start);
    if start < s.len() && i < end {
        let rest = lemma_candidates_carry(s, more, end);
        assert(s.subrange(start, end) =~= more.subrange(start, end));
        assert(candidates(more, i) =~= candidates(s, i) + rest);
        rest
    } else {
        if start < s.len() {
            assert(scheme_at(s, start)) by {
                lemma_found_scheme(s, i);
            }
            assert(s.subrange(start, start + 8)[0] == 't');
            assert(!ends_ref(s[start]));
            lemma_end_carries(s, more, start + 1);
        }
        assert(candidates(s, i) =~= Seq::empty());
        assert(candidates(more, i) =~= candidates(s, i) + candidates(more, i));
        candidates(more, i)
    }
}

/// Where a scheme is found, there is one.
proof fn lemma_found_scheme(s: Seq<char>, i: int)
    requires
        0 <= i,
    ensures
        find_scheme(s, i) < s.len() ==> scheme_at(s, find_scheme(s, i)),
    decreases s.len() - i,
{
    if i < s.len() && !scheme_at(s, i) {
        lemma_found_scheme(s, i + 1);
    }
}

/// More stretches add their references behind those there were.
proof fn lemma_refs_grow(found: Seq<Seq<char>>, more: Seq<Seq<char>>)
    ensures
        distinct(refs_among(found)).is_prefix_of(distinct(refs_among(found + more))),
    decreases more.len(),
{
    if more.len() == 0 {
        assert(found + more =~= found);
    } else {
        let before = found + more.drop_last();
        lemma_refs_grow(found, more.drop_last());
        assert((found + more).drop_last() =~= before);
        assert((found + more).last() == more.last());
        if let Some(r) = ref_named(more.last()) {
            assert(refs_among(before).push(r).drop_last() =~= refs_among(before));
        }
    }
}

/// References are extracted in the order in which they come: what a text refers to stands first, and as it
/// stands there, in what the text and anything written after it refer to.
pub proof fn law_refs_come_in_order(s: Seq<char>, t: Seq<char>)
    ensures
        embedded_refs(s).is_prefix_of(embedded_refs(s + seq![' '] + t)),
{
    let more = s + seq![' '] + t;
    assert(more.take(s.len() as int) =~= s);
    let rest = lemma_candidates_carry(s, more, 0);
    lemma_refs_grow(candidates(s, 0), rest);
}

} // verus!
