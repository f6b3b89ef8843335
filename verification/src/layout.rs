//! How a record lies in its canonical bytes, field by field.
use crate::canonical;
use crate::codec;
use crate::extra::Entry;
use crate::model::{BodyModel, FileRefModel, LinkModel, MediaKind, StreamKind};
use crate::refs::RefModel;
use vstd::prelude::*;

verus! {

/// The parts, one after the other.
pub open spec fn joined(parts: Seq<Seq<u8>>) -> Seq<u8>
    decreases parts.len(),
{
    if parts.len() == 0 {
        Seq::empty()
    } else {
        parts[0] + joined(parts.drop_first())
    }
}

/// The layouts of a body's fields, in the order in which they are declared.
pub open spec fn fields_of(b: BodyModel) -> Seq<Seq<u8>> {
    match b {
        BodyModel::Profile(v) => seq![
            codec::opt_text_bytes(v.handle),
            codec::text_bytes(v.display_name),
            codec::text_bytes(v.bio),
            codec::opt_text_bytes(v.avatar),
            codec::links_bytes(v.links),
            codec::texts_bytes(v.devices),
        ],
        BodyModel::Media(v) => seq![
            codec::u32_bytes(canonical::media_kind_index(v.kind)),
            codec::text_bytes(v.object_cid),
            codec::text_bytes(v.mime),
            codec::u64_bytes(v.size),
            codec::text_bytes(v.title),
            codec::opt_u64_bytes(v.duration_ms),
            codec::opt_u32_bytes(v.width),
            codec::opt_u32_bytes(v.height),
            codec::opt_text_bytes(v.thumbnail),
            codec::extra_bytes(v.extra),
        ],
        BodyModel::Post(v) => seq![
            codec::text_bytes(v.board),
            codec::opt_text_bytes(v.parent),
            codec::opt_text_bytes(v.title),
            codec::text_bytes(v.body),
            codec::texts_bytes(v.media),
        ],
        BodyModel::Vote(v) => seq![
            codec::text_bytes(v.target),
            codec::i8_bytes(v.value),
        ],
        BodyModel::Follow(v) => seq![
            codec::text_bytes(v.followee),
            codec::flag_bytes(v.active),
        ],
        BodyModel::StreamStart(v) => seq![
            codec::text_bytes(v.title),
            codec::u32_bytes(canonical::stream_kind_index(v.kind)),
            codec::opt_text_bytes(v.board),
            codec::opt_text_bytes(v.thumbnail),
            codec::extra_bytes(v.extra),
        ],
        BodyModel::StreamSegment(v) => seq![
            codec::text_bytes(v.stream),
            codec::u64_bytes(v.seq),
            codec::text_bytes(v.object_cid),
            codec::u64_bytes(v.duration_ms),
        ],
        BodyModel::StreamEnd(v) => seq![
            codec::text_bytes(v.stream),
            codec::opt_text_bytes(v.recording_cid),
        ],
        BodyModel::Document(v) => seq![
            codec::text_bytes(v.title),
            codec::text_bytes(v.body),
            codec::opt_file_bytes(v.file),
            codec::refs_bytes(v.refs),
            codec::opt_text_bytes(v.board),
            codec::opt_text_bytes(v.series),
            codec::opt_text_bytes(v.prev),
        ],
        BodyModel::BoardCreate(v) => seq![
            codec::text_bytes(v.board),
            codec::text_bytes(v.title),
            codec::text_bytes(v.description),
            codec::u64_bytes(v.policy.grace_secs),
            codec::u64_bytes(v.policy.ban_support.bits),
            codec::u32_bytes(v.policy.ban_quorum),
            codec::u64_bytes(v.policy.min_trust_to_post.bits),
            codec::u64_bytes(v.policy.min_trust_to_vote.bits),
        ],
        BodyModel::BanVote(v) => seq![
            codec::text_bytes(v.board),
            codec::text_bytes(v.target),
            codec::flag_bytes(v.support),
            codec::text_bytes(v.reason),
        ],
        BodyModel::PolicyProposal(v) => seq![
            codec::opt_text_bytes(v.board),
            codec::text_bytes(v.title),
            codec::text_bytes(v.body),
        ],
        BodyModel::PolicyVote(v) => seq![
            codec::text_bytes(v.proposal),
            codec::flag_bytes(v.support),
        ],
        BodyModel::DeviceLink(v) => seq![
            codec::text_bytes(v.owner),
            codec::flag_bytes(v.active),
        ],
    }
}

/// The number of a kind of media, and that of a kind of stream, is its place among them.
pub proof fn law_kinds_are_numbered_in_order(k: MediaKind, s: StreamKind)
    ensures
        k is Image ==> canonical::media_kind_index(k) == 0,
        k is Video ==> canonical::media_kind_index(k) == 1,
        k is Audio ==> canonical::media_kind_index(k) == 2,
        k is Podcast ==> canonical::media_kind_index(k) == 3,
        k is Document ==> canonical::media_kind_index(k) == 4,
        s is Video ==> canonical::stream_kind_index(s) == 0,
        s is Audio ==> canonical::stream_kind_index(s) == 1,
{
}

/// A record's canonical bytes are its author, its time, the name of its kind, and the fields of its body, each
/// once and in order, and nothing else.
pub proof fn law_records_lie_field_by_field(author: Seq<char>, created_ms: u64, body: BodyModel)
    ensures
        canonical::canonical(author, created_ms, body) == joined(
            seq![codec::text_bytes(author), codec::u64_bytes(created_ms), codec::text_bytes(body.kind())] + fields_of(
                body,
            ),
        ),
{
    let front = seq![codec::text_bytes(author), codec::u64_bytes(created_ms), codec::text_bytes(body.kind())];
    let rest = fields_of(body);
    let all = front + rest;
    lemma_fields(body);
    assert(all.drop_first().drop_first().drop_first() =~= rest);
    assert(all[0] == front[0] && all.drop_first()[0] == front[1] && all.drop_first().drop_first()[0] == front[2]);
    reveal_with_fuel(joined, 4);
    assert(joined(all) =~= canonical::canonical(author, created_ms, body));
}

/// A body's fields, one after the other.
proof fn lemma_fields(b: BodyModel)
    ensures
        canonical::fields_bytes(b) == joined(fields_of(b)),
{
    let p = fields_of(b);
    lemma_tails(p, 0);
    lemma_tails(p, 1);
    lemma_tails(p, 2);
    lemma_tails(p, 3);
    lemma_tails(p, 4);
    lemma_tails(p, 5);
    lemma_tails(p, 6);
    lemma_tails(p, 7);
    lemma_tails(p, 8);
    lemma_tails(p, 9);
    assert(p.skip(0) =~= p);
    assert(joined(p) =~= canonical::fields_bytes(b));
}

/// The parts from the `i`-th on are the `i`-th and those after it.
proof fn lemma_tails(p: Seq<Seq<u8>>, i: int)
    ensures
        0 <= i < p.len() ==> joined(p.skip(i)) == p[i] + joined(p.skip(i + 1)),
        0 <= i && i == p.len() - 1 ==> joined(p.skip(i)) == p[i],
{
    if 0 <= i < p.len() {
        assert(p.skip(i).drop_first() =~= p.skip(i + 1));
        if i == p.len() - 1 {
            assert(p[i] + joined(p.skip(i + 1)) =~= p[i]);
        }
    }
}

/// A link is its label and its URL, a metadata entry its key and its value, a reference the number of its kind and
/// its id, a file its object, type, size and name.
pub proof fn law_pairs_lie_in_order(l: LinkModel, e: Entry, r: RefModel, f: FileRefModel)
    ensures
        codec::link_bytes(l) == joined(seq![codec::text_bytes(l.label), codec::text_bytes(l.url)]),
        codec::entry_bytes(e) == joined(seq![codec::text_bytes(e.0), codec::text_bytes(e.1)]),
        codec::ref_bytes(r) == joined(seq![codec::u32_bytes(codec::ref_kind_index(r.kind)), codec::text_bytes(r.id)]),
        codec::file_bytes(f) == joined(
            seq![
                codec::text_bytes(f.object_cid),
                codec::text_bytes(f.mime),
                codec::u64_bytes(f.size),
                codec::text_bytes(f.name),
            ],
        ),
        r.kind is Post ==> codec::ref_kind_index(r.kind) == 0,
        r.kind is Document ==> codec::ref_kind_index(r.kind) == 1,
        r.kind is Media ==> codec::ref_kind_index(r.kind) == 2,
        r.kind is Stream ==> codec::ref_kind_index(r.kind) == 3,
        r.kind is Profile ==> codec::ref_kind_index(r.kind) == 4,
        r.kind is Board ==> codec::ref_kind_index(r.kind) == 5,
        r.kind is Blob ==> codec::ref_kind_index(r.kind) == 6,
{
    lemma_two(codec::text_bytes(l.label), codec::text_bytes(l.url));
    lemma_two(codec::text_bytes(e.0), codec::text_bytes(e.1));
    lemma_two(codec::u32_bytes(codec::ref_kind_index(r.kind)), codec::text_bytes(r.id));
    let p = seq![
        codec::text_bytes(f.object_cid),
        codec::text_bytes(f.mime),
        codec::u64_bytes(f.size),
        codec::text_bytes(f.name),
    ];
    lemma_tails(p, 0);
    lemma_tails(p, 1);
    lemma_tails(p, 2);
    lemma_tails(p, 3);
    assert(p.skip(0) =~= p);
    assert(joined(p) =~= codec::file_bytes(f));
}

/// Two parts, one after the other.
proof fn lemma_two(a: Seq<u8>, b: Seq<u8>)
    ensures
        joined(seq![a, b]) == a + b,
{
    let p = seq![a, b];
    lemma_tails(p, 0);
    lemma_tails(p, 1);
    assert(p.skip(0) =~= p);
}

/// Lists are laid out item by item behind their length, whatever they hold.
pub proof fn law_lists_lie_item_by_item(
    texts: Seq<Seq<char>>,
    links: Seq<LinkModel>,
    refs: Seq<RefModel>,
    extra: Seq<Entry>,
    text: Seq<char>,
    link: LinkModel,
    reference: RefModel,
    entry: Entry,
)
    requires
        texts.len() < u64::MAX,
        links.len() < u64::MAX,
        refs.len() < u64::MAX,
        extra.len() < u64::MAX,
    ensures
        codec::spelled(codec::texts_bytes(texts).take(8)) == texts.len(),
        codec::spelled(codec::links_bytes(links).take(8)) == links.len(),
        codec::spelled(codec::refs_bytes(refs).take(8)) == refs.len(),
        codec::spelled(codec::extra_bytes(extra).take(8)) == extra.len(),
        codec::texts_bytes(texts.push(text)).skip(8) == codec::texts_bytes(texts).skip(8) + codec::text_bytes(text),
        codec::links_bytes(links.push(link)).skip(8) == codec::links_bytes(links).skip(8) + codec::link_bytes(link),
        codec::refs_bytes(refs.push(reference)).skip(8) == codec::refs_bytes(refs).skip(8) + codec::ref_bytes(
            reference,
        ),
        codec::extra_bytes(extra.push(entry)).skip(8) == codec::extra_bytes(extra).skip(8) + codec::entry_bytes(entry),
{
    codec::law_lists_hold_their_items_in_order(texts, text, |t: Seq<char>| codec::text_bytes(t));
    codec::law_lists_hold_their_items_in_order(links, link, |l: LinkModel| codec::link_bytes(l));
    codec::law_lists_hold_their_items_in_order(refs, reference, |r: RefModel| codec::ref_bytes(r));
    codec::law_lists_hold_their_items_in_order(extra, entry, |e: Entry| codec::entry_bytes(e));
}

/// What may be missing is laid out behind a byte that tells whether it is there, whatever it is.
pub proof fn law_optional_parts_say_whether_they_are_there(
    text: Option<Seq<char>>,
    long: Option<u64>,
    short: Option<u32>,
    file: Option<FileRefModel>,
)
    ensures
        text is None ==> codec::opt_text_bytes(text) == seq![0u8],
        long is None ==> codec::opt_u64_bytes(long) == seq![0u8],
        short is None ==> codec::opt_u32_bytes(short) == seq![0u8],
        file is None ==> codec::opt_file_bytes(file) == seq![0u8],
        text matches Some(t) ==> codec::opt_text_bytes(text) == seq![1u8] + codec::text_bytes(t),
        long matches Some(n) ==> codec::opt_u64_bytes(long) == seq![1u8] + codec::u64_bytes(n),
        short matches Some(n) ==> codec::opt_u32_bytes(short) == seq![1u8] + codec::u32_bytes(n),
        file matches Some(f) ==> codec::opt_file_bytes(file) == seq![1u8] + codec::file_bytes(f),
{
}

} // verus!
