//! Playback: what a stream shows, told from the records that were published of it.
use crate::history;
use crate::history::{genuine, known, newer};
use crate::model::{BodyModel, StreamSegmentModel};
use crate::readmodel;
use crate::readmodel::{PartsEntry, RecordingEntry, SegmentEntry, StateModel};
use crate::record::RecordModel;
use crate::stamp;
use crate::streams;
use crate::streams::StreamView;
use crate::sums;
use crate::text;
use vstd::prelude::*;

verus! {

/// The record ends the stream for `author`, with or without a recording.
pub open spec fn ends(r: RecordModel, stream: Seq<char>, author: Seq<char>) -> bool {
    r.author == author && (r.body matches BodyModel::StreamEnd(e) && e.stream == stream)
}

/// The record ends the stream for `author` and names a recording.
pub open spec fn records(r: RecordModel, stream: Seq<char>, author: Seq<char>) -> bool {
    ends(r, stream, author) && r.body->StreamEnd_0.recording_cid is Some
}

/// The record at `i` is the newest that names a recording of the stream.
pub open spec fn newest_recording(rs: Seq<RecordModel>, i: int, stream: Seq<char>, author: Seq<char>) -> bool {
    &&& 0 <= i < rs.len()
    &&& records(rs[i], stream, author)
    &&& forall|j: int|
        0 <= j < rs.len() && records(#[trigger] rs[j], stream, author) && rs[j].id != rs[i].id ==> newer(rs[i], rs[j])
}

/// The record is a segment of the stream by `author`, at place `seq`.
pub open spec fn appends(r: RecordModel, stream: Seq<char>, author: Seq<char>, seq: u64) -> bool {
    r.author == author && (r.body matches BodyModel::StreamSegment(s) && s.stream == stream && s.seq == seq)
}

/// The record at `i` is the oldest segment of the stream at its place.
pub open spec fn oldest_segment(rs: Seq<RecordModel>, i: int, stream: Seq<char>, author: Seq<char>, seq: u64) -> bool {
    &&& 0 <= i < rs.len()
    &&& appends(rs[i], stream, author, seq)
    &&& forall|j: int|
        0 <= j < rs.len() && appends(#[trigger] rs[j], stream, author, seq) && rs[j].id != rs[i].id ==> newer(
            rs[j],
            rs[i],
        )
}

/// The segment is the oldest that `author` has published of the stream at its place.
pub open spec fn is_oldest(rs: Seq<RecordModel>, stream: Seq<char>, author: Seq<char>, s: StreamSegmentModel) -> bool {
    exists|i: int| #[trigger] oldest_segment(rs, i, stream, author, s.seq) && s == rs[i].body->StreamSegment_0
}

/// How long a segment lasts, milliseconds.
pub open spec fn lasting() -> spec_fn(StreamSegmentModel) -> int {
    |s: StreamSegmentModel| s.duration_ms as int
}

/// What an author has published of a stream has ended once they have ended it.
proof fn lemma_ended(rs: Seq<RecordModel>, stream: Seq<char>, author: Seq<char>)
    requires
        genuine(rs),
    ensures
        readmodel::parts_at(known(rs).parts, stream, author).ended <==> exists|i: int|
            0 <= i < rs.len() && ends(#[trigger] rs[i], stream, author),
{
    let slot = |m: StateModel|
        if readmodel::parts_at(m.parts, stream, author).ended {
            Some(true)
        } else {
            None
        };
    let offer = |r: RecordModel|
        if ends(r, stream, author) {
            Some(true)
        } else {
            None
        };
    let wins = |x: bool, y: bool| true;
    history::lemma_slot(slot, offer, wins, rs);
    let m = known(rs);
    if slot(m) is Some {
        let i = choose|i: int| #[trigger] history::wins_all(offer, wins, rs, i) && offer(rs[i]) == slot(m);
        assert(ends(rs[i], stream, author));
    } else {
        assert forall|j: int| 0 <= j < rs.len() implies !ends(#[trigger] rs[j], stream, author) by {
            assert(offer(rs[j]) is None);
        }
    }
}

proof fn lemma_recording(rs: Seq<RecordModel>, stream: Seq<char>, author: Seq<char>)
    requires
        genuine(rs),
    ensures
        ({
            let held = readmodel::parts_at(known(rs).parts, stream, author).recording;
            &&& held is Some <==> exists|i: int| 0 <= i < rs.len() && records(#[trigger] rs[i], stream, author)
            &&& held is Some ==> exists|i: int| #[trigger] newest_recording(rs, i, stream, author)
            &&& forall|i: int| #[trigger]
                newest_recording(rs, i, stream, author) ==> held is Some && Some(held->0.cid)
                    == rs[i].body->StreamEnd_0.recording_cid
        }),
{
    let slot = |m: StateModel| readmodel::parts_at(m.parts, stream, author).recording;
    let offer = |r: RecordModel|
        if records(r, stream, author) {
            Some(RecordingEntry { cid: r.body->StreamEnd_0.recording_cid->0, at: r.created_ms, id: r.id })
        } else {
            None
        };
    let wins = |x: RecordingEntry, y: RecordingEntry|
        x.at > y.at || (x.at == y.at && text::text_before(y.id, x.id));
    assert(history::contested(slot, offer, wins)) by {
        assert forall|x: RecordingEntry, y: RecordingEntry, z: RecordingEntry|
            #![trigger wins(x, y), wins(y, z)]
            wins(x, y) && wins(y, z) implies wins(x, z) by {
            stamp::lemma_transitive(z.at, z.id, y.at, y.id, x.at, x.id);
        }
        assert forall|r: RecordModel, s: RecordModel|
            #![trigger offer(r), offer(s)]
            r.id != s.id && offer(r) is Some && offer(s) is Some implies wins(offer(r)->0, offer(s)->0) || wins(
            offer(s)->0,
            offer(r)->0,
        ) by {
            stamp::lemma_total(r.created_ms, r.id, s.created_ms, s.id);
        }
    }
    history::lemma_slot(slot, offer, wins, rs);
    let m = known(rs);
    if slot(m) is Some {
        let i = choose|i: int| #[trigger] history::wins_all(offer, wins, rs, i) && offer(rs[i]) == slot(m);
        assert(records(rs[i], stream, author));
        assert forall|j: int|
            0 <= j < rs.len() && records(#[trigger] rs[j], stream, author) && rs[j].id != rs[i].id implies newer(
            rs[i],
            rs[j],
        ) by {
            assert(offer(rs[j]) is Some);
        }
        assert(newest_recording(rs, i, stream, author));
        assert forall|k: int| #[trigger] newest_recording(rs, k, stream, author) implies offer(rs[k]) == slot(m) by {
            if rs[k].id != rs[i].id {
                assert(newer(rs[i], rs[k]) && newer(rs[k], rs[i]));
                stamp::lemma_total(rs[i].created_ms, rs[i].id, rs[k].created_ms, rs[k].id);
            }
        }
    } else {
        assert forall|j: int| 0 <= j < rs.len() implies !records(#[trigger] rs[j], stream, author) by {
            assert(offer(rs[j]) is None);
        }
    }
}

proof fn lemma_segment(rs: Seq<RecordModel>, stream: Seq<char>, author: Seq<char>, seq: u64)
    requires
        genuine(rs),
    ensures
        ({
            let held = readmodel::parts_at(known(rs).parts, stream, author).segments;
            &&& held.contains_key(seq) <==> exists|i: int|
                0 <= i < rs.len() && appends(#[trigger] rs[i], stream, author, seq)
            &&& held.contains_key(seq) ==> exists|i: int| #[trigger]
                oldest_segment(rs, i, stream, author, seq) && held[seq].segment == rs[i].body->StreamSegment_0
        }),
{
    let slot = |m: StateModel|
        if readmodel::parts_at(m.parts, stream, author).segments.contains_key(seq) {
            Some(readmodel::parts_at(m.parts, stream, author).segments[seq])
        } else {
            None
        };
    let offer = |r: RecordModel|
        if appends(r, stream, author, seq) {
            Some(SegmentEntry { segment: r.body->StreamSegment_0, at: r.created_ms, id: r.id })
        } else {
            None
        };
    let wins = |x: SegmentEntry, y: SegmentEntry| y.at > x.at || (y.at == x.at && text::text_before(x.id, y.id));
    assert(history::contested(slot, offer, wins)) by {
        assert forall|x: SegmentEntry, y: SegmentEntry, z: SegmentEntry|
            #![trigger wins(x, y), wins(y, z)]
            wins(x, y) && wins(y, z) implies wins(x, z) by {
            stamp::lemma_transitive(x.at, x.id, y.at, y.id, z.at, z.id);
        }
        assert forall|r: RecordModel, s: RecordModel|
            #![trigger offer(r), offer(s)]
            r.id != s.id && offer(r) is Some && offer(s) is Some implies wins(offer(r)->0, offer(s)->0) || wins(
            offer(s)->0,
            offer(r)->0,
        ) by {
            stamp::lemma_total(r.created_ms, r.id, s.created_ms, s.id);
        }
    }
    history::lemma_slot(slot, offer, wins, rs);
    let m = known(rs);
    if slot(m) is Some {
        let i = choose|i: int| #[trigger] history::wins_all(offer, wins, rs, i) && offer(rs[i]) == slot(m);
        assert(appends(rs[i], stream, author, seq));
        assert forall|j: int|
            0 <= j < rs.len() && appends(#[trigger] rs[j], stream, author, seq) && rs[j].id != rs[i].id implies newer(
            rs[j],
            rs[i],
        ) by {
            assert(offer(rs[j]) is Some);
        }
        assert(oldest_segment(rs, i, stream, author, seq));
    } else {
        assert forall|j: int| 0 <= j < rs.len() implies !appends(#[trigger] rs[j], stream, author, seq) by {
            assert(offer(rs[j]) is None);
        }
    }
}

/// A stream is live until its own author ends it, with or without a recording; what anyone else says
/// does not end it.
pub proof fn law_stream_is_live_until_its_author_ends_it(rs: Seq<RecordModel>, id: Seq<char>, view: StreamView)
    requires
        genuine(rs),
        streams::shows_stream(known(rs), id, view),
    ensures
        !view.live <==> exists|i: int| 0 <= i < rs.len() && ends(#[trigger] rs[i], id, view.author@),
{
    lemma_ended(rs, id, view.author@);
}

/// A stream is shown as it was started.
pub proof fn law_stream_is_shown_as_started(rs: Seq<RecordModel>, id: Seq<char>, view: StreamView)
    requires
        genuine(rs),
        streams::shows_stream(known(rs), id, view),
    ensures
        exists|i: int|
            0 <= i < rs.len() && (#[trigger] rs[i]).id == id && rs[i].body is StreamStart && view.author@ == rs[i].author
                && view.created_ms == rs[i].created_ms && view.start@ == rs[i].body->StreamStart_0,
        view.id@ == id,
{
    history::law_streams_are_known_as_started(rs, id);
    let i = choose|i: int| 0 <= i < rs.len() && (#[trigger] rs[i]).id == id && rs[i].body is StreamStart;
    assert(view.author@ == rs[i].author);
}

/// A stream shows the newest recording that its own author has named, or none where they have named none.
pub proof fn law_stream_shows_its_newest_recording(rs: Seq<RecordModel>, id: Seq<char>, view: StreamView)
    requires
        genuine(rs),
        streams::shows_stream(known(rs), id, view),
    ensures
        view.recording_cid is Some <==> exists|i: int| 0 <= i < rs.len() && records(#[trigger] rs[i], id, view.author@),
        forall|i: int| #[trigger]
            newest_recording(rs, i, id, view.author@) ==> view.recording_cid.deep_view()
                == rs[i].body->StreamEnd_0.recording_cid,
        view.recording_cid is Some ==> exists|i: int| #[trigger] newest_recording(rs, i, id, view.author@),
{
    lemma_recording(rs, id, view.author@);
}

/// A list of all segments lasts as long as the segments do together.
proof fn lemma_listed_duration(list: Seq<StreamSegmentModel>, held: Map<u64, SegmentEntry>)
    requires
        streams::lists_segments(list, held),
    ensures
        streams::total_duration(held) == sums::added_up(list, lasting()),
{
    let places = list.map_values(|s: StreamSegmentModel| s.seq);
    let lasts = |q: u64| held[q].segment.duration_ms as int;
    assert(places.to_set() =~= held.dom()) by {
        assert forall|q: u64| places.to_set().contains(q) <==> held.dom().contains(q) by {
            if places.contains(q) {
                let k = choose|k: int| 0 <= k < places.len() && places[k] == q;
                assert(list[k].seq == q);
            }
            if held.contains_key(q) {
                let k = choose|k: int| 0 <= k < list.len() && (#[trigger] list[k]).seq == q;
                assert(places[k] == q);
            }
        }
    }
    assert(places.no_duplicates()) by {
        assert forall|i: int, j: int| 0 <= i < places.len() && 0 <= j < places.len() && i != j implies places[i]
            != places[j] by {
            if i < j {
                assert(list[i].seq < list[j].seq);
            } else {
                assert(list[j].seq < list[i].seq);
            }
        }
    }
    sums::lemma_added_up(places, lasts);
    let shown = lasting();
    assert forall|i: int| 0 <= i < places.len() implies lasts(#[trigger] places[i]) == shown(list[i]) by {
        assert(held.contains_key(list[i].seq) && held[list[i].seq].segment == list[i]);
    }
    sums::lemma_added_up_same(places, lasts, list, shown);
    assert(streams::total_duration(held) == sums::sum_over(held.dom(), lasts));
}

/// A stream plays, in the order of their places, exactly the segments that its own author has published of
/// it, at each place the oldest; and it lasts as long as they do together.
pub proof fn law_stream_plays_its_segments(rs: Seq<RecordModel>, id: Seq<char>, view: StreamView)
    requires
        genuine(rs),
        streams::shows_stream(known(rs), id, view),
    ensures
        ({
            let list = view.segments.deep_view();
            &&& forall|i: int, j: int| 0 <= i < j < list.len() ==> (#[trigger] list[i]).seq < (#[trigger] list[j]).seq
            &&& forall|k: int| 0 <= k < list.len() ==> is_oldest(rs, id, view.author@, #[trigger] list[k])
            &&& forall|i: int, seq: u64| #![trigger appends(rs[i], id, view.author@, seq)]
                0 <= i < rs.len() && appends(rs[i], id, view.author@, seq) ==> exists|k: int|
                    0 <= k < list.len() && (#[trigger] list[k]).seq == seq
            &&& view.total_duration_ms == sums::added_up(list, lasting())
        }),
{
    let author = view.author@;
    let held = streams::parts_of(known(rs), id).segments;
    let list = view.segments.deep_view();
    assert forall|k: int| 0 <= k < list.len() implies is_oldest(rs, id, author, #[trigger] list[k]) by {
        lemma_segment(rs, id, author, list[k].seq);
        assert(held.contains_key(list[k].seq) && held[list[k].seq].segment == list[k]);
    }
    assert forall|i: int, seq: u64| #![trigger appends(rs[i], id, author, seq)]
        0 <= i < rs.len() && appends(rs[i], id, author, seq) implies exists|k: int|
        0 <= k < list.len() && (#[trigger] list[k]).seq == seq by {
        lemma_segment(rs, id, author, seq);
        assert(held.contains_key(seq));
    }
    lemma_listed_duration(list, held);
}

/// The live streams are exactly those that were started and that their own authors have not ended, each
/// once and the newest first.
pub proof fn law_live_streams_are_those_not_ended(rs: Seq<RecordModel>, views: Seq<StreamView>, id: Seq<char>)
    requires
        genuine(rs),
        streams::lists_live(known(rs), views),
    ensures
        (exists|k: int| 0 <= k < views.len() && (#[trigger] views[k]).id@ == id) <==> (exists|i: int|
            0 <= i < rs.len() && (#[trigger] rs[i]).id == id && rs[i].body is StreamStart && !(exists|j: int|
                0 <= j < rs.len() && ends(#[trigger] rs[j], id, rs[i].author))),
        forall|k: int| 0 <= k < views.len() ==> (#[trigger] views[k]).live,
        forall|k: int, l: int|
            0 <= k < l < views.len() ==> (#[trigger] views[k]).id@ != (#[trigger] views[l]).id@ && views[k].created_ms
                >= views[l].created_ms,
{
    let m = known(rs);
    let ids = views.map_values(|v: StreamView| v.id@);
    let stamps = views.map_values(|v: StreamView| (v.created_ms, v.id@));
    history::law_streams_are_known_as_started(rs, id);
    if m.streams.contains_key(id) {
        lemma_ended(rs, id, m.streams[id].author);
        let i = choose|i: int| 0 <= i < rs.len() && (#[trigger] rs[i]).id == id && rs[i].body is StreamStart;
        assert(m.streams[id].author == rs[i].author);
    }
    if exists|k: int| 0 <= k < views.len() && (#[trigger] views[k]).id@ == id {
        let k = choose|k: int| 0 <= k < views.len() && (#[trigger] views[k]).id@ == id;
        assert(ids[k] == id);
        assert(ids.to_set().contains(id));
        assert(streams::live_ids(m).contains(id));
        let i = choose|i: int| 0 <= i < rs.len() && (#[trigger] rs[i]).id == id && rs[i].body is StreamStart;
        assert(!(exists|j: int| 0 <= j < rs.len() && ends(#[trigger] rs[j], id, rs[i].author)));
    }
    if exists|i: int|
        0 <= i < rs.len() && (#[trigger] rs[i]).id == id && rs[i].body is StreamStart && !(exists|j: int|
            0 <= j < rs.len() && ends(#[trigger] rs[j], id, rs[i].author)) {
        assert(streams::live_ids(m).contains(id));
        assert(ids.to_set().contains(id));
        let k = choose|k: int| 0 <= k < ids.len() && ids[k] == id;
        assert(views[k].id@ == id);
    }
    assert forall|k: int| 0 <= k < views.len() implies (#[trigger] views[k]).live by {
        assert(ids[k] == views[k].id@);
        assert(ids.to_set().contains(ids[k]));
        assert(streams::live_ids(m).contains(views[k].id@));
    }
    assert forall|k: int, l: int| 0 <= k < l < views.len() implies (#[trigger] views[k]).id@ != (
    #[trigger] views[l]).id@ && views[k].created_ms >= views[l].created_ms by {
        assert(ids[k] == views[k].id@ && ids[l] == views[l].id@);
        assert(stamps[k] == (views[k].created_ms, views[k].id@));
        assert(stamps[l] == (views[l].created_ms, views[l].id@));
    }
}

/// A stream is too long to be shown only where its segments together last longer than a 64-bit count of
/// milliseconds can tell; one that is not known is never too long.
pub proof fn law_only_endless_streams_are_too_long(m: StateModel, id: Seq<char>, list: Seq<StreamSegmentModel>)
    requires
        m.streams.dom().contains(id) ==> streams::lists_segments(list, streams::parts_of(m, id).segments),
    ensures
        !streams::duration_fits(m, id) <==> m.streams.dom().contains(id) && sums::added_up(list, lasting())
            > 0xFFFF_FFFF_FFFF_FFFF,
{
    if m.streams.contains_key(id) {
        lemma_listed_duration(list, streams::parts_of(m, id).segments);
    }
}

} // verus!
