//! The canonical byte encoding: how each value is laid out, and why no two values share a layout.
//!
//! Numbers are little-endian and of fixed width; text and lists carry their length before them; an
//! option is a flag followed by its value. The primitive layouts come from `bincode`; what is built
//! from them is built here.
use crate::extra::{Entry, Extra};
use crate::model::{FileRef, FileRefModel, Link, LinkModel, MediaRef};
use crate::refs::{Ref, RefKind, RefModel};
use crate::text;
use vstd::prelude::*;
use vstd::utf8;

verus! {

/// `n` in `k` bytes, the least significant first.
pub open spec fn le_bytes(n: nat, k: nat) -> Seq<u8>
    decreases k,
{
    if k == 0 {
        Seq::empty()
    } else {
        seq![(n % 256) as u8] + le_bytes(n / 256, (k - 1) as nat)
    }
}

/// How many numbers `k` bytes can hold.
pub open spec fn span(k: nat) -> nat
    decreases k,
{
    if k == 0 {
        1
    } else {
        256 * span((k - 1) as nat)
    }
}

/// The layout of a 64-bit number.
pub open spec fn u64_bytes(n: u64) -> Seq<u8> {
    le_bytes(n as nat, 8)
}

/// The layout of a 32-bit number, and of the index of an enum variant.
pub open spec fn u32_bytes(n: u32) -> Seq<u8> {
    le_bytes(n as nat, 4)
}

/// The layout of a flag.
pub open spec fn flag_bytes(b: bool) -> Seq<u8> {
    seq![
        if b {
            1u8
        } else {
            0u8
        },
    ]
}

/// The layout of a signed byte: two's complement.
pub open spec fn i8_bytes(v: i8) -> Seq<u8> {
    seq![
        (if v < 0 {
            v + 256
        } else {
            v as int
        }) as u8,
    ]
}

/// The layout of text: its length in UTF-8 bytes, then the bytes.
pub open spec fn text_bytes(s: Seq<char>) -> Seq<u8> {
    u64_bytes(utf8::encode_utf8(s).len() as u64) + utf8::encode_utf8(s)
}

/// The layout of an option: a flag, then the value if there is one.
pub open spec fn option_bytes<A>(o: Option<A>, f: spec_fn(A) -> Seq<u8>) -> Seq<u8> {
    match o {
        Some(a) => flag_bytes(true) + f(a),
        None => flag_bytes(false),
    }
}

/// The layouts of all items, one after the other.
pub open spec fn items_bytes<A>(s: Seq<A>, f: spec_fn(A) -> Seq<u8>) -> Seq<u8>
    decreases s.len(),
{
    if s.len() == 0 {
        Seq::empty()
    } else {
        items_bytes(s.drop_last(), f) + f(s.last())
    }
}

/// The layout of a list: its length, then its items.
pub open spec fn list_bytes<A>(s: Seq<A>, f: spec_fn(A) -> Seq<u8>) -> Seq<u8> {
    u64_bytes(s.len() as u64) + items_bytes(s, f)
}

/// The layout of optional text.
pub open spec fn opt_text_bytes(o: Option<Seq<char>>) -> Seq<u8> {
    option_bytes(o, |s: Seq<char>| text_bytes(s))
}

/// The layout of an optional 64-bit number.
pub open spec fn opt_u64_bytes(o: Option<u64>) -> Seq<u8> {
    option_bytes(o, |n: u64| u64_bytes(n))
}

/// The layout of an optional 32-bit number.
pub open spec fn opt_u32_bytes(o: Option<u32>) -> Seq<u8> {
    option_bytes(o, |n: u32| u32_bytes(n))
}

/// The layout of a list of texts.
pub open spec fn texts_bytes(s: Seq<Seq<char>>) -> Seq<u8> {
    list_bytes(s, |t: Seq<char>| text_bytes(t))
}

/// The layout of a link.
pub open spec fn link_bytes(l: LinkModel) -> Seq<u8> {
    text_bytes(l.label) + text_bytes(l.url)
}

/// The layout of a list of links.
pub open spec fn links_bytes(s: Seq<LinkModel>) -> Seq<u8> {
    list_bytes(s, |l: LinkModel| link_bytes(l))
}

/// The layout of a metadata entry.
pub open spec fn entry_bytes(e: Entry) -> Seq<u8> {
    text_bytes(e.0) + text_bytes(e.1)
}

/// The layout of metadata: its entries in key order.
pub open spec fn extra_bytes(s: Seq<Entry>) -> Seq<u8> {
    list_bytes(s, |e: Entry| entry_bytes(e))
}

/// The index of a reference kind.
pub open spec fn ref_kind_index(k: RefKind) -> u32 {
    match k {
        RefKind::Post => 0,
        RefKind::Document => 1,
        RefKind::Media => 2,
        RefKind::Stream => 3,
        RefKind::Profile => 4,
        RefKind::Board => 5,
        RefKind::Blob => 6,
    }
}

/// The layout of a reference.
pub open spec fn ref_bytes(r: RefModel) -> Seq<u8> {
    u32_bytes(ref_kind_index(r.kind)) + text_bytes(r.id)
}

/// The layout of a list of references.
pub open spec fn refs_bytes(s: Seq<RefModel>) -> Seq<u8> {
    list_bytes(s, |r: RefModel| ref_bytes(r))
}

/// The layout of a file payload.
pub open spec fn file_bytes(f: FileRefModel) -> Seq<u8> {
    text_bytes(f.object_cid) + text_bytes(f.mime) + u64_bytes(f.size) + text_bytes(f.name)
}

/// The layout of an optional file payload.
pub open spec fn opt_file_bytes(o: Option<FileRefModel>) -> Seq<u8> {
    option_bytes(o, |f: FileRefModel| file_bytes(f))
}

// ----- what can be laid out: lengths that fit their 64-bit prefix -----

/// The text's length fits its prefix.
pub open spec fn text_fits(s: Seq<char>) -> bool {
    utf8::encode_utf8(s).len() <= u64::MAX
}

/// The option's value, if any, fits.
pub open spec fn option_fits<A>(o: Option<A>, ok: spec_fn(A) -> bool) -> bool {
    o is Some ==> ok(o->0)
}

/// The list's length fits its prefix, and each item fits.
pub open spec fn list_fits<A>(s: Seq<A>, ok: spec_fn(A) -> bool) -> bool {
    s.len() <= u64::MAX && forall|i: int| 0 <= i < s.len() ==> ok(#[trigger] s[i])
}

pub open spec fn opt_text_fits(o: Option<Seq<char>>) -> bool {
    option_fits(o, |s: Seq<char>| text_fits(s))
}

pub open spec fn texts_fit(s: Seq<Seq<char>>) -> bool {
    list_fits(s, |t: Seq<char>| text_fits(t))
}

pub open spec fn link_fits(l: LinkModel) -> bool {
    text_fits(l.label) && text_fits(l.url)
}

pub open spec fn links_fit(s: Seq<LinkModel>) -> bool {
    list_fits(s, |l: LinkModel| link_fits(l))
}

pub open spec fn entry_fits(e: Entry) -> bool {
    text_fits(e.0) && text_fits(e.1)
}

pub open spec fn extra_fits(s: Seq<Entry>) -> bool {
    list_fits(s, |e: Entry| entry_fits(e))
}

pub open spec fn ref_fits(r: RefModel) -> bool {
    text_fits(r.id)
}

pub open spec fn refs_fit(s: Seq<RefModel>) -> bool {
    list_fits(s, |r: RefModel| ref_fits(r))
}

pub open spec fn file_fits(f: FileRefModel) -> bool {
    text_fits(f.object_cid) && text_fits(f.mime) && text_fits(f.name)
}

pub open spec fn opt_file_fits(o: Option<FileRefModel>) -> bool {
    option_fits(o, |f: FileRefModel| file_fits(f))
}

// ----- no two values share a layout: each layout tells where it ends -----

/// A layout can be read off the front of any byte string in one way only.
pub open spec fn readable<A>(f: spec_fn(A) -> Seq<u8>, ok: spec_fn(A) -> bool) -> bool {
    forall|a: A, b: A, x: Seq<u8>, y: Seq<u8>|
        ok(a) && ok(b) && #[trigger] (f(a) + x) == #[trigger] (f(b) + y) ==> a == b && x == y
}

proof fn lemma_le_len(n: nat, k: nat)
    ensures
        le_bytes(n, k).len() == k,
    decreases k,
{
    if k > 0 {
        lemma_le_len(n / 256, (k - 1) as nat);
    }
}

proof fn lemma_le_injective(a: nat, b: nat, k: nat)
    requires
        a < span(k),
        b < span(k),
        le_bytes(a, k) == le_bytes(b, k),
    ensures
        a == b,
    decreases k,
{
    if k > 0 {
        let ra = le_bytes(a / 256, (k - 1) as nat);
        let rb = le_bytes(b / 256, (k - 1) as nat);
        assert(le_bytes(a, k)[0] == (a % 256) as u8);
        assert(le_bytes(b, k)[0] == (b % 256) as u8);
        assert(le_bytes(a, k).skip(1) =~= ra);
        assert(le_bytes(b, k).skip(1) =~= rb);
        lemma_le_injective(a / 256, b / 256, (k - 1) as nat);
    }
}

/// Two equal concatenations whose heads have the same length agree on heads and tails.
proof fn lemma_split(a: Seq<u8>, x: Seq<u8>, b: Seq<u8>, y: Seq<u8>)
    requires
        a + x == b + y,
        a.len() == b.len(),
    ensures
        a == b,
        x == y,
{
    assert(a =~= (a + x).take(a.len() as int));
    assert(b =~= (b + y).take(b.len() as int));
    assert(x =~= (a + x).skip(a.len() as int));
    assert(y =~= (b + y).skip(b.len() as int));
}

/// A 64-bit number can be read back.
pub proof fn lemma_u64(a: u64, b: u64, x: Seq<u8>, y: Seq<u8>)
    requires
        u64_bytes(a) + x == u64_bytes(b) + y,
    ensures
        a == b,
        x == y,
{
    lemma_le_len(a as nat, 8);
    lemma_le_len(b as nat, 8);
    lemma_split(u64_bytes(a), x, u64_bytes(b), y);
    reveal_with_fuel(span, 9);
    lemma_le_injective(a as nat, b as nat, 8);
}

/// A 32-bit number can be read back.
pub proof fn lemma_u32(a: u32, b: u32, x: Seq<u8>, y: Seq<u8>)
    requires
        u32_bytes(a) + x == u32_bytes(b) + y,
    ensures
        a == b,
        x == y,
{
    lemma_le_len(a as nat, 4);
    lemma_le_len(b as nat, 4);
    lemma_split(u32_bytes(a), x, u32_bytes(b), y);
    reveal_with_fuel(span, 5);
    lemma_le_injective(a as nat, b as nat, 4);
}

/// A flag can be read back.
pub proof fn lemma_flag(a: bool, b: bool, x: Seq<u8>, y: Seq<u8>)
    requires
        flag_bytes(a) + x == flag_bytes(b) + y,
    ensures
        a == b,
        x == y,
{
    lemma_split(flag_bytes(a), x, flag_bytes(b), y);
    assert(flag_bytes(a)[0] == flag_bytes(b)[0]);
}

/// A signed byte can be read back.
pub proof fn lemma_i8(a: i8, b: i8, x: Seq<u8>, y: Seq<u8>)
    requires
        i8_bytes(a) + x == i8_bytes(b) + y,
    ensures
        a == b,
        x == y,
{
    lemma_split(i8_bytes(a), x, i8_bytes(b), y);
    assert(i8_bytes(a)[0] == i8_bytes(b)[0]);
}

/// Text can be read back.
pub proof fn lemma_text(a: Seq<char>, b: Seq<char>, x: Seq<u8>, y: Seq<u8>)
    requires
        text_fits(a),
        text_fits(b),
        text_bytes(a) + x == text_bytes(b) + y,
    ensures
        a == b,
        x == y,
{
    let ua = utf8::encode_utf8(a);
    let ub = utf8::encode_utf8(b);
    let la = ua.len() as u64;
    let lb = ub.len() as u64;
    assert(text_bytes(a) + x =~= u64_bytes(la) + (ua + x));
    assert(text_bytes(b) + y =~= u64_bytes(lb) + (ub + y));
    lemma_u64(la, lb, ua + x, ub + y);
    lemma_split(ua, x, ub, y);
    text::lemma_utf8_injective(a, b);
}

/// An option can be read back where its value can.
pub proof fn lemma_option<A>(
    f: spec_fn(A) -> Seq<u8>,
    ok: spec_fn(A) -> bool,
    a: Option<A>,
    b: Option<A>,
    x: Seq<u8>,
    y: Seq<u8>,
)
    requires
        readable(f, ok),
        option_fits(a, ok),
        option_fits(b, ok),
        option_bytes(a, f) + x == option_bytes(b, f) + y,
    ensures
        a == b,
        x == y,
{
    let ta = match a {
        Some(v) => f(v) + x,
        None => x,
    };
    let tb = match b {
        Some(v) => f(v) + y,
        None => y,
    };
    assert(option_bytes(a, f) + x =~= flag_bytes(a is Some) + ta);
    assert(option_bytes(b, f) + y =~= flag_bytes(b is Some) + tb);
    lemma_flag(a is Some, b is Some, ta, tb);
    if a is Some {
        assert(f(a->0) + x == f(b->0) + y);
    }
}

/// Lists of one length can be read back where their items can.
proof fn lemma_items<A>(
    f: spec_fn(A) -> Seq<u8>,
    ok: spec_fn(A) -> bool,
    a: Seq<A>,
    b: Seq<A>,
    x: Seq<u8>,
    y: Seq<u8>,
)
    requires
        readable(f, ok),
        a.len() == b.len(),
        forall|i: int| 0 <= i < a.len() ==> ok(#[trigger] a[i]),
        forall|i: int| 0 <= i < b.len() ==> ok(#[trigger] b[i]),
        items_bytes(a, f) + x == items_bytes(b, f) + y,
    ensures
        a == b,
        x == y,
    decreases a.len(),
{
    if a.len() == 0 {
        assert(items_bytes(a, f) + x =~= x);
        assert(items_bytes(b, f) + y =~= y);
        assert(a =~= b);
    } else {
        let sa = a.drop_last();
        let sb = b.drop_last();
        let la = a.last();
        let lb = b.last();
        assert(items_bytes(a, f) + x =~= items_bytes(sa, f) + (f(la) + x));
        assert(items_bytes(b, f) + y =~= items_bytes(sb, f) + (f(lb) + y));
        assert forall|i: int| 0 <= i < sa.len() implies ok(#[trigger] sa[i]) by {
            assert(sa[i] == a[i]);
        }
        assert forall|i: int| 0 <= i < sb.len() implies ok(#[trigger] sb[i]) by {
            assert(sb[i] == b[i]);
        }
        lemma_items(f, ok, sa, sb, f(la) + x, f(lb) + y);
        assert(ok(a[a.len() - 1]) && ok(b[b.len() - 1]));
        assert(la == lb && x == y);
        assert(a =~= sa.push(la));
        assert(b =~= sb.push(lb));
    }
}

/// A list can be read back where its items can.
pub proof fn lemma_list<A>(
    f: spec_fn(A) -> Seq<u8>,
    ok: spec_fn(A) -> bool,
    a: Seq<A>,
    b: Seq<A>,
    x: Seq<u8>,
    y: Seq<u8>,
)
    requires
        readable(f, ok),
        list_fits(a, ok),
        list_fits(b, ok),
        list_bytes(a, f) + x == list_bytes(b, f) + y,
    ensures
        a == b,
        x == y,
{
    let la = a.len() as u64;
    let lb = b.len() as u64;
    assert(list_bytes(a, f) + x =~= u64_bytes(la) + (items_bytes(a, f) + x));
    assert(list_bytes(b, f) + y =~= u64_bytes(lb) + (items_bytes(b, f) + y));
    lemma_u64(la, lb, items_bytes(a, f) + x, items_bytes(b, f) + y);
    lemma_items(f, ok, a, b, x, y);
}

/// Optional text can be read back.
pub proof fn lemma_opt_text(a: Option<Seq<char>>, b: Option<Seq<char>>, x: Seq<u8>, y: Seq<u8>)
    requires
        opt_text_fits(a),
        opt_text_fits(b),
        opt_text_bytes(a) + x == opt_text_bytes(b) + y,
    ensures
        a == b,
        x == y,
{
    let f = |s: Seq<char>| text_bytes(s);
    let ok = |s: Seq<char>| text_fits(s);
    assert forall|p: Seq<char>, q: Seq<char>, u: Seq<u8>, v: Seq<u8>|
        ok(p) && ok(q) && #[trigger] (f(p) + u) == #[trigger] (f(q) + v) implies p == q && u == v by {
        lemma_text(p, q, u, v);
    }
    lemma_option(f, ok, a, b, x, y);
}

/// An optional 64-bit number can be read back.
pub proof fn lemma_opt_u64(a: Option<u64>, b: Option<u64>, x: Seq<u8>, y: Seq<u8>)
    requires
        opt_u64_bytes(a) + x == opt_u64_bytes(b) + y,
    ensures
        a == b,
        x == y,
{
    let f = |n: u64| u64_bytes(n);
    let ok = |n: u64| true;
    assert forall|p: u64, q: u64, u: Seq<u8>, v: Seq<u8>|
        ok(p) && ok(q) && #[trigger] (f(p) + u) == #[trigger] (f(q) + v) implies p == q && u == v by {
        lemma_u64(p, q, u, v);
    }
    lemma_option(f, ok, a, b, x, y);
}

/// An optional 32-bit number can be read back.
pub proof fn lemma_opt_u32(a: Option<u32>, b: Option<u32>, x: Seq<u8>, y: Seq<u8>)
    requires
        opt_u32_bytes(a) + x == opt_u32_bytes(b) + y,
    ensures
        a == b,
        x == y,
{
    let f = |n: u32| u32_bytes(n);
    let ok = |n: u32| true;
    assert forall|p: u32, q: u32, u: Seq<u8>, v: Seq<u8>|
        ok(p) && ok(q) && #[trigger] (f(p) + u) == #[trigger] (f(q) + v) implies p == q && u == v by {
        lemma_u32(p, q, u, v);
    }
    lemma_option(f, ok, a, b, x, y);
}

/// A list of texts can be read back.
pub proof fn lemma_texts(a: Seq<Seq<char>>, b: Seq<Seq<char>>, x: Seq<u8>, y: Seq<u8>)
    requires
        texts_fit(a),
        texts_fit(b),
        texts_bytes(a) + x == texts_bytes(b) + y,
    ensures
        a == b,
        x == y,
{
    let f = |s: Seq<char>| text_bytes(s);
    let ok = |s: Seq<char>| text_fits(s);
    assert forall|p: Seq<char>, q: Seq<char>, u: Seq<u8>, v: Seq<u8>|
        ok(p) && ok(q) && #[trigger] (f(p) + u) == #[trigger] (f(q) + v) implies p == q && u == v by {
        lemma_text(p, q, u, v);
    }
    lemma_list(f, ok, a, b, x, y);
}

proof fn lemma_two_texts(
    a: Seq<char>,
    a2: Seq<char>,
    b: Seq<char>,
    b2: Seq<char>,
    x: Seq<u8>,
    y: Seq<u8>,
)
    requires
        text_fits(a),
        text_fits(a2),
        text_fits(b),
        text_fits(b2),
        text_bytes(a) + text_bytes(a2) + x == text_bytes(b) + text_bytes(b2) + y,
    ensures
        a == b,
        a2 == b2,
        x == y,
{
    assert(text_bytes(a) + text_bytes(a2) + x =~= text_bytes(a) + (text_bytes(a2) + x));
    assert(text_bytes(b) + text_bytes(b2) + y =~= text_bytes(b) + (text_bytes(b2) + y));
    lemma_text(a, b, text_bytes(a2) + x, text_bytes(b2) + y);
    lemma_text(a2, b2, x, y);
}

/// A list of links can be read back.
pub proof fn lemma_links(a: Seq<LinkModel>, b: Seq<LinkModel>, x: Seq<u8>, y: Seq<u8>)
    requires
        links_fit(a),
        links_fit(b),
        links_bytes(a) + x == links_bytes(b) + y,
    ensures
        a == b,
        x == y,
{
    let f = |l: LinkModel| link_bytes(l);
    let ok = |l: LinkModel| link_fits(l);
    assert forall|p: LinkModel, q: LinkModel, u: Seq<u8>, v: Seq<u8>|
        ok(p) && ok(q) && #[trigger] (f(p) + u) == #[trigger] (f(q) + v) implies p == q && u == v by {
        lemma_two_texts(p.label, p.url, q.label, q.url, u, v);
    }
    lemma_list(f, ok, a, b, x, y);
}

/// Metadata can be read back.
pub proof fn lemma_extra(a: Seq<Entry>, b: Seq<Entry>, x: Seq<u8>, y: Seq<u8>)
    requires
        extra_fits(a),
        extra_fits(b),
        extra_bytes(a) + x == extra_bytes(b) + y,
    ensures
        a == b,
        x == y,
{
    let f = |e: Entry| entry_bytes(e);
    let ok = |e: Entry| entry_fits(e);
    assert forall|p: Entry, q: Entry, u: Seq<u8>, v: Seq<u8>|
        ok(p) && ok(q) && #[trigger] (f(p) + u) == #[trigger] (f(q) + v) implies p == q && u == v by {
        lemma_two_texts(p.0, p.1, q.0, q.1, u, v);
    }
    lemma_list(f, ok, a, b, x, y);
}

/// A list of references can be read back.
pub proof fn lemma_refs(a: Seq<RefModel>, b: Seq<RefModel>, x: Seq<u8>, y: Seq<u8>)
    requires
        refs_fit(a),
        refs_fit(b),
        refs_bytes(a) + x == refs_bytes(b) + y,
    ensures
        a == b,
        x == y,
{
    let f = |r: RefModel| ref_bytes(r);
    let ok = |r: RefModel| ref_fits(r);
    assert forall|p: RefModel, q: RefModel, u: Seq<u8>, v: Seq<u8>|
        ok(p) && ok(q) && #[trigger] (f(p) + u) == #[trigger] (f(q) + v) implies p == q && u == v by {
        let kp = ref_kind_index(p.kind);
        let kq = ref_kind_index(q.kind);
        assert(f(p) + u =~= u32_bytes(kp) + (text_bytes(p.id) + u));
        assert(f(q) + v =~= u32_bytes(kq) + (text_bytes(q.id) + v));
        lemma_u32(kp, kq, text_bytes(p.id) + u, text_bytes(q.id) + v);
        lemma_text(p.id, q.id, u, v);
    }
    lemma_list(f, ok, a, b, x, y);
}

/// The layout of a file payload, followed by anything, taken from the front.
proof fn lemma_file_layout(f: FileRefModel, x: Seq<u8>)
    ensures
        file_bytes(f) + x == text_bytes(f.object_cid) + (text_bytes(f.mime) + (u64_bytes(f.size) + (text_bytes(f.name)
            + x))),
{
    assert(file_bytes(f) + x =~= text_bytes(f.object_cid) + (text_bytes(f.mime) + (u64_bytes(f.size) + (text_bytes(
        f.name,
    ) + x))));
}

/// A file payload can be read back.
proof fn lemma_file(a: FileRefModel, b: FileRefModel, x: Seq<u8>, y: Seq<u8>)
    requires
        file_fits(a),
        file_fits(b),
        file_bytes(a) + x == file_bytes(b) + y,
    ensures
        a == b,
        x == y,
{
    lemma_file_layout(a, x);
    lemma_file_layout(b, y);
    let a3 = u64_bytes(a.size) + (text_bytes(a.name) + x);
    let b3 = u64_bytes(b.size) + (text_bytes(b.name) + y);
    lemma_text(a.object_cid, b.object_cid, text_bytes(a.mime) + a3, text_bytes(b.mime) + b3);
    lemma_text(a.mime, b.mime, a3, b3);
    lemma_u64(a.size, b.size, text_bytes(a.name) + x, text_bytes(b.name) + y);
    lemma_text(a.name, b.name, x, y);
}

/// An optional file payload can be read back.
pub proof fn lemma_opt_file(a: Option<FileRefModel>, b: Option<FileRefModel>, x: Seq<u8>, y: Seq<u8>)
    requires
        opt_file_fits(a),
        opt_file_fits(b),
        opt_file_bytes(a) + x == opt_file_bytes(b) + y,
    ensures
        a == b,
        x == y,
{
    let f = |r: FileRefModel| file_bytes(r);
    let ok = |r: FileRefModel| file_fits(r);
    assert forall|p: FileRefModel, q: FileRefModel, u: Seq<u8>, v: Seq<u8>|
        ok(p) && ok(q) && #[trigger] (f(p) + u) == #[trigger] (f(q) + v) implies p == q && u == v by {
        lemma_file(p, q, u, v);
    }
    lemma_option(f, ok, a, b, x, y);
}

// ----- the primitive layouts, from `bincode` -----

/// `bincode::serialize` of a `u64`: eight bytes, the least significant first.
#[verifier::external_body]
fn bincode_u64(n: u64) -> (bytes: Vec<u8>)
    ensures
        bytes@ == u64_bytes(n),
{
    bincode::serialize(&n).expect("a number always encodes")
}

/// `bincode::serialize` of a `u32`: four bytes, the least significant first.
#[verifier::external_body]
fn bincode_u32(n: u32) -> (bytes: Vec<u8>)
    ensures
        bytes@ == u32_bytes(n),
{
    bincode::serialize(&n).expect("a number always encodes")
}

/// `bincode::serialize` of a `bool`: one byte, 1 or 0.
#[verifier::external_body]
fn bincode_bool(b: bool) -> (bytes: Vec<u8>)
    ensures
        bytes@ == flag_bytes(b),
{
    bincode::serialize(&b).expect("a flag always encodes")
}

/// `bincode::serialize` of an `i8`: one byte, two's complement.
#[verifier::external_body]
fn bincode_i8(v: i8) -> (bytes: Vec<u8>)
    ensures
        bytes@ == i8_bytes(v),
{
    bincode::serialize(&v).expect("a number always encodes")
}

/// `bincode::serialize` of a `str`: its length in bytes as a `u64`, then its UTF-8 bytes.
#[verifier::external_body]
fn bincode_str(s: &str) -> (bytes: Vec<u8>)
    ensures
        bytes@ == text_bytes(s@),
{
    bincode::serialize(s).expect("text always encodes")
}

// ----- writing -----

/// Append a 64-bit number.
pub fn put_u64(out: &mut Vec<u8>, n: u64)
    ensures
        final(out)@ == old(out)@ + u64_bytes(n),
{
    let mut bytes = bincode_u64(n);
    out.append(&mut bytes);
}

/// Append a 32-bit number.
pub fn put_u32(out: &mut Vec<u8>, n: u32)
    ensures
        final(out)@ == old(out)@ + u32_bytes(n),
{
    let mut bytes = bincode_u32(n);
    out.append(&mut bytes);
}

/// Append a flag.
pub fn put_flag(out: &mut Vec<u8>, b: bool)
    ensures
        final(out)@ == old(out)@ + flag_bytes(b),
{
    let mut bytes = bincode_bool(b);
    out.append(&mut bytes);
}

/// Append a signed byte.
pub fn put_i8(out: &mut Vec<u8>, v: i8)
    ensures
        final(out)@ == old(out)@ + i8_bytes(v),
{
    let mut bytes = bincode_i8(v);
    out.append(&mut bytes);
}

/// Append text.
pub fn put_text(out: &mut Vec<u8>, s: &str)
    ensures
        final(out)@ == old(out)@ + text_bytes(s@),
{
    let mut bytes = bincode_str(s);
    out.append(&mut bytes);
}

/// Append optional text.
pub fn put_opt_text(out: &mut Vec<u8>, o: &Option<String>)
    ensures
        final(out)@ == old(out)@ + opt_text_bytes(o.deep_view()),
{
    match o {
        Some(s) => {
            put_flag(out, true);
            put_text(out, s);
        },
        None => {
            put_flag(out, false);
        },
    }
    assert(out@ =~= old(out)@ + opt_text_bytes(o.deep_view()));
}

/// Append an optional media reference.
pub fn put_opt_media(out: &mut Vec<u8>, o: &Option<MediaRef>)
    ensures
        final(out)@ == old(out)@ + opt_text_bytes(o.deep_view()),
{
    match o {
        Some(m) => {
            put_flag(out, true);
            put_text(out, &m.media_id);
        },
        None => {
            put_flag(out, false);
        },
    }
    assert(out@ =~= old(out)@ + opt_text_bytes(o.deep_view()));
}

/// Append an optional 64-bit number.
pub fn put_opt_u64(out: &mut Vec<u8>, o: Option<u64>)
    ensures
        final(out)@ == old(out)@ + opt_u64_bytes(o),
{
    match o {
        Some(n) => {
            put_flag(out, true);
            put_u64(out, n);
        },
        None => {
            put_flag(out, false);
        },
    }
    assert(out@ =~= old(out)@ + opt_u64_bytes(o));
}

/// Append an optional 32-bit number.
pub fn put_opt_u32(out: &mut Vec<u8>, o: Option<u32>)
    ensures
        final(out)@ == old(out)@ + opt_u32_bytes(o),
{
    match o {
        Some(n) => {
            put_flag(out, true);
            put_u32(out, n);
        },
        None => {
            put_flag(out, false);
        },
    }
    assert(out@ =~= old(out)@ + opt_u32_bytes(o));
}

/// Append an optional file payload.
pub fn put_opt_file(out: &mut Vec<u8>, o: &Option<FileRef>)
    ensures
        final(out)@ == old(out)@ + opt_file_bytes(o.deep_view()),
{
    match o {
        Some(f) => {
            put_flag(out, true);
            put_text(out, &f.object_cid);
            put_text(out, &f.mime);
            put_u64(out, f.size);
            put_text(out, &f.name);
        },
        None => {
            put_flag(out, false);
        },
    }
    assert(out@ =~= old(out)@ + opt_file_bytes(o.deep_view()));
}

proof fn lemma_items_next<A>(s: Seq<A>, f: spec_fn(A) -> Seq<u8>, i: int)
    requires
        0 <= i < s.len(),
    ensures
        items_bytes(s.take(i + 1), f) == items_bytes(s.take(i), f) + f(s[i]),
{
    assert(s.take(i + 1).drop_last() =~= s.take(i));
}

/// Append a list of texts.
pub fn put_texts(out: &mut Vec<u8>, list: &Vec<String>)
    ensures
        final(out)@ == old(out)@ + texts_bytes(list.deep_view()),
{
    let ghost all = list.deep_view();
    let ghost f = |t: Seq<char>| text_bytes(t);
    put_u64(out, list.len() as u64);
    let ghost start = out@;
    let mut i: usize = 0;
    assert(out@ =~= start + items_bytes(all.take(0), f));
    while i < list.len()
        invariant
            i <= list@.len(),
            all == list.deep_view(),
            f == (|t: Seq<char>| text_bytes(t)),
            out@ == start + items_bytes(all.take(i as int), f),
        decreases list.len() - i,
    {
        let ghost before = out@;
        put_text(out, &list[i]);
        proof {
            lemma_items_next(all, f, i as int);
            assert(all[i as int] == list@[i as int]@);
            assert(out@ =~= start + items_bytes(all.take(i + 1), f));
        }
        i = i + 1;
    }
    assert(all.take(all.len() as int) =~= all);
    assert(out@ =~= old(out)@ + texts_bytes(all));
}

/// Append a list of media references.
pub fn put_media_refs(out: &mut Vec<u8>, list: &Vec<MediaRef>)
    ensures
        final(out)@ == old(out)@ + texts_bytes(list.deep_view()),
{
    let ghost all = list.deep_view();
    let ghost f = |t: Seq<char>| text_bytes(t);
    put_u64(out, list.len() as u64);
    let ghost start = out@;
    let mut i: usize = 0;
    assert(out@ =~= start + items_bytes(all.take(0), f));
    while i < list.len()
        invariant
            i <= list@.len(),
            all == list.deep_view(),
            f == (|t: Seq<char>| text_bytes(t)),
            out@ == start + items_bytes(all.take(i as int), f),
        decreases list.len() - i,
    {
        put_text(out, &list[i].media_id);
        proof {
            lemma_items_next(all, f, i as int);
            assert(all[i as int] == list@[i as int]@);
            assert(out@ =~= start + items_bytes(all.take(i + 1), f));
        }
        i = i + 1;
    }
    assert(all.take(all.len() as int) =~= all);
    assert(out@ =~= old(out)@ + texts_bytes(all));
}

/// Append a list of links.
pub fn put_links(out: &mut Vec<u8>, list: &Vec<Link>)
    ensures
        final(out)@ == old(out)@ + links_bytes(list.deep_view()),
{
    let ghost all = list.deep_view();
    let ghost f = |l: LinkModel| link_bytes(l);
    put_u64(out, list.len() as u64);
    let ghost start = out@;
    let mut i: usize = 0;
    assert(out@ =~= start + items_bytes(all.take(0), f));
    while i < list.len()
        invariant
            i <= list@.len(),
            all == list.deep_view(),
            f == (|l: LinkModel| link_bytes(l)),
            out@ == start + items_bytes(all.take(i as int), f),
        decreases list.len() - i,
    {
        put_text(out, &list[i].label);
        put_text(out, &list[i].url);
        proof {
            lemma_items_next(all, f, i as int);
            assert(all[i as int] == list@[i as int]@);
            assert(out@ =~= start + items_bytes(all.take(i + 1), f));
        }
        i = i + 1;
    }
    assert(all.take(all.len() as int) =~= all);
    assert(out@ =~= old(out)@ + links_bytes(all));
}

/// The index of a reference kind.
pub fn kind_index(k: RefKind) -> (index: u32)
    ensures
        index == ref_kind_index(k),
{
    match k {
        RefKind::Post => 0,
        RefKind::Document => 1,
        RefKind::Media => 2,
        RefKind::Stream => 3,
        RefKind::Profile => 4,
        RefKind::Board => 5,
        RefKind::Blob => 6,
    }
}

/// Append a list of references.
pub fn put_refs(out: &mut Vec<u8>, list: &Vec<Ref>)
    ensures
        final(out)@ == old(out)@ + refs_bytes(list.deep_view()),
{
    let ghost all = list.deep_view();
    let ghost f = |r: RefModel| ref_bytes(r);
    put_u64(out, list.len() as u64);
    let ghost start = out@;
    let mut i: usize = 0;
    assert(out@ =~= start + items_bytes(all.take(0), f));
    while i < list.len()
        invariant
            i <= list@.len(),
            all == list.deep_view(),
            f == (|r: RefModel| ref_bytes(r)),
            out@ == start + items_bytes(all.take(i as int), f),
        decreases list.len() - i,
    {
        put_u32(out, kind_index(list[i].kind));
        put_text(out, &list[i].id);
        proof {
            lemma_items_next(all, f, i as int);
            assert(all[i as int] == list@[i as int]@);
            assert(out@ =~= start + items_bytes(all.take(i + 1), f));
        }
        i = i + 1;
    }
    assert(all.take(all.len() as int) =~= all);
    assert(out@ =~= old(out)@ + refs_bytes(all));
}

/// Append metadata.
pub fn put_extra(out: &mut Vec<u8>, extra: &Extra)
    ensures
        final(out)@ == old(out)@ + extra_bytes(extra@),
{
    let ghost all = extra@;
    let ghost f = |e: Entry| entry_bytes(e);
    let n: usize = extra.len();
    put_u64(out, n as u64);
    let ghost start = out@;
    let mut i: usize = 0;
    assert(out@ =~= start + items_bytes(all.take(0), f));
    while i < n
        invariant
            i <= n,
            n == all.len(),
            all == extra@,
            f == (|e: Entry| entry_bytes(e)),
            out@ == start + items_bytes(all.take(i as int), f),
        decreases n - i,
    {
        let (key, value) = extra.entry(i);
        put_text(out, key);
        put_text(out, value);
        proof {
            lemma_items_next(all, f, i as int);
            assert(out@ =~= start + items_bytes(all.take(i + 1), f));
        }
        i = i + 1;
    }
    assert(all.take(all.len() as int) =~= all);
    assert(out@ =~= old(out)@ + extra_bytes(all));
}

// ----- what the layouts mean -----

/// The number that the bytes spell, the least significant first.
pub open spec fn spelled(bytes: Seq<u8>) -> nat
    decreases bytes.len(),
{
    if bytes.len() == 0 {
        0
    } else {
        bytes[0] as nat + 256 * spelled(bytes.drop_first())
    }
}

proof fn lemma_spelled(n: nat, k: nat)
    requires
        n < span(k),
    ensures
        le_bytes(n, k).len() == k,
        spelled(le_bytes(n, k)) == n,
    decreases k,
{
    if k > 0 {
        assert(n / 256 < span((k - 1) as nat)) by (nonlinear_arith)
            requires
                n < 256 * span((k - 1) as nat),
        ;
        lemma_spelled(n / 256, (k - 1) as nat);
        assert(le_bytes(n, k).drop_first() =~= le_bytes(n / 256, (k - 1) as nat));
    }
}

/// Numbers are laid out in as many bytes as they have, the least significant first.
pub proof fn law_numbers_are_spelled_from_the_least(n: u64, k: u32)
    ensures
        u64_bytes(n).len() == 8,
        spelled(u64_bytes(n)) == n,
        u32_bytes(k).len() == 4,
        spelled(u32_bytes(k)) == k,
{
    reveal_with_fuel(span, 9);
    lemma_spelled(n as nat, 8);
    lemma_spelled(k as nat, 4);
}

/// A flag is one byte, one or zero; a signed byte is its two's complement.
pub proof fn law_small_values_are_one_byte(b: bool, v: i8)
    ensures
        flag_bytes(b).len() == 1,
        flag_bytes(b)[0] == 1 <==> b,
        flag_bytes(b)[0] == 0 <==> !b,
        i8_bytes(v).len() == 1,
        (i8_bytes(v)[0] - v) % 256 == 0,
{
}

/// Text is its length in eight bytes, then that many bytes of UTF-8.
pub proof fn law_text_follows_its_length(s: Seq<char>)
    requires
        utf8::encode_utf8(s).len() <= u64::MAX,
    ensures
        text_bytes(s).len() >= 8,
        spelled(text_bytes(s).take(8)) == utf8::encode_utf8(s).len(),
        text_bytes(s).skip(8) == utf8::encode_utf8(s),
{
    let n = utf8::encode_utf8(s).len() as u64;
    law_numbers_are_spelled_from_the_least(n, 0);
    assert(text_bytes(s).take(8) =~= u64_bytes(n));
    assert(text_bytes(s).skip(8) =~= utf8::encode_utf8(s));
}

/// An option is a byte that tells whether there is a value, then the value if there is.
pub proof fn law_options_tell_whether_there_is_a_value<A>(o: Option<A>, f: spec_fn(A) -> Seq<u8>)
    ensures
        option_bytes(o, f).len() >= 1,
        o is None ==> option_bytes(o, f) == seq![0u8],
        o matches Some(a) ==> option_bytes(o, f)[0] == 1 && option_bytes(o, f).skip(1) == f(a),
{
    if let Some(a) = o {
        assert(option_bytes(o, f).skip(1) =~= f(a));
    }
}

/// A list is its length in eight bytes, then its items from the first to the last: what one more item adds
/// stands at the end.
pub proof fn law_lists_hold_their_items_in_order<A>(s: Seq<A>, a: A, f: spec_fn(A) -> Seq<u8>)
    requires
        s.len() < u64::MAX,
    ensures
        list_bytes(s, f).len() >= 8,
        spelled(list_bytes(s, f).take(8)) == s.len(),
        s.len() == 0 ==> list_bytes(s, f).len() == 8,
        list_bytes(s.push(a), f).skip(8) == list_bytes(s, f).skip(8) + f(a),
{
    let n = s.len() as u64;
    law_numbers_are_spelled_from_the_least(n, 0);
    law_numbers_are_spelled_from_the_least((n + 1) as u64, 0);
    assert(list_bytes(s, f).take(8) =~= u64_bytes(n));
    assert(list_bytes(s, f).skip(8) =~= items_bytes(s, f));
    assert(s.push(a).drop_last() =~= s);
    assert(list_bytes(s.push(a), f).skip(8) =~= items_bytes(s.push(a), f));
}

} // verus!
