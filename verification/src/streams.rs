//! Live streams: growing playlists of content-addressed segments.
use crate::model::{StreamSegment, StreamSegmentModel, StreamStart};
use crate::order;
use crate::readmodel;
use crate::readmodel::{PartsEntry, SegmentEntry, StateModel};
use crate::state;
use crate::state::{State, StoredParts};
use crate::sums;
use vstd::prelude::*;

verus! {

/// A live (or ended) stream as returned to readers, with its ordered segment list.
pub struct StreamView {
    pub id: String,
    pub author: String,
    pub created_ms: u64,
    pub start: StreamStart,
    pub live: bool,
    pub recording_cid: Option<String>,
    /// Segments in ascending sequence order.
    pub segments: Vec<StreamSegment>,
    /// Total published duration so far, milliseconds.
    pub total_duration_ms: u64,
}

/// What the stream's own author has published of it.
pub open spec fn parts_of(m: StateModel, id: Seq<char>) -> PartsEntry {
    readmodel::parts_at(m.parts, id, m.streams[id].author)
}

/// How long the segments of a stream last in all, in milliseconds.
pub open spec fn total_duration(segments: Map<u64, SegmentEntry>) -> int {
    sums::sum_over(segments.dom(), |q: u64| segments[q].segment.duration_ms as int)
}

/// The total duration of every segment of the stream fits a 64-bit count.
pub open spec fn duration_fits(m: StateModel, id: Seq<char>) -> bool {
    m.streams.contains_key(id) ==> total_duration(parts_of(m, id).segments) <= u64::MAX
}

/// The list holds each of the segments once, in ascending sequence order.
pub open spec fn lists_segments(list: Seq<StreamSegmentModel>, held: Map<u64, SegmentEntry>) -> bool {
    &&& forall|i: int, j: int| 0 <= i < j < list.len() ==> (#[trigger] list[i]).seq < (#[trigger] list[j]).seq
    &&& forall|i: int|
        0 <= i < list.len() ==> held.contains_key((#[trigger] list[i]).seq) && held[list[i].seq].segment == list[i]
    &&& forall|q: u64| #[trigger]
        held.contains_key(q) ==> exists|i: int| 0 <= i < list.len() && (#[trigger] list[i]).seq == q
}

/// The recording's content id, if there is one.
pub open spec fn recording_cid(p: PartsEntry) -> Option<Seq<char>> {
    match p.recording {
        Some(r) => Some(r.cid),
        None => None,
    }
}

/// `view` shows the stream `id` of the model: its start, joined to what its author has published of it.
pub open spec fn shows_stream(m: StateModel, id: Seq<char>, view: StreamView) -> bool {
    let st = m.streams[id];
    let parts = parts_of(m, id);
    &&& m.streams.contains_key(id)
    &&& view.id@ == id
    &&& view.author@ == st.author
    &&& view.created_ms == st.created_ms
    &&& view.start@ == st.start
    &&& view.live == !parts.ended
    &&& view.recording_cid.deep_view() == recording_cid(parts)
    &&& lists_segments(view.segments.deep_view(), parts.segments)
    &&& view.total_duration_ms == total_duration(parts.segments)
}

/// The streams that have not ended.
pub open spec fn live_ids(m: StateModel) -> Set<Seq<char>> {
    m.streams.dom().filter(|id: Seq<char>| !parts_of(m, id).ended)
}

/// The durations of all live streams fit.
pub open spec fn live_fit(m: StateModel) -> bool {
    forall|id: Seq<char>| #[trigger] live_ids(m).contains(id) ==> duration_fits(m, id)
}

/// `views` shows every live stream once, newest first.
pub open spec fn lists_live(m: StateModel, views: Seq<StreamView>) -> bool {
    &&& forall|i: int| 0 <= i < views.len() ==> shows_stream(m, (#[trigger] views[i]).id@, views[i])
    &&& views.map_values(|v: StreamView| v.id@).no_duplicates()
    &&& views.map_values(|v: StreamView| v.id@).to_set() == live_ids(m)
    &&& order::newest_first(views.map_values(|v: StreamView| (v.created_ms, v.id@)))
}

/// The total duration of a playlist, segment by segment.
spec fn playlist_duration(segments: Seq<SegmentEntry>) -> int
    decreases segments.len(),
{
    if segments.len() == 0 {
        0
    } else {
        playlist_duration(segments.drop_last()) + segments.last().segment.duration_ms
    }
}

proof fn lemma_playlist_duration(segments: Seq<SegmentEntry>)
    requires
        state::playlist_ordered(segments),
    ensures
        playlist_duration(segments) == total_duration(state::playlist_map(segments)),
        state::playlist_map(segments).dom().finite(),
    decreases segments.len(),
{
    let map = state::playlist_map(segments);
    if segments.len() == 0 {
        assert(map.dom() =~= Set::empty());
    } else {
        let shorter = segments.drop_last();
        let last = segments.last();
        let n = segments.len() - 1;
        lemma_playlist_duration(shorter);
        let before = state::playlist_map(shorter);
        state::lemma_playlist_value(segments, n);
        assert forall|q: u64| #[trigger]
            before.dom().contains(q) implies q != last.segment.seq && map.dom().contains(q) && before[q] == map[q] by {
            let i = state::playlist_index(shorter, q);
            assert(shorter[i].segment.seq == q);
            assert(segments[i].segment.seq == q);
            assert(segments[i].segment.seq < segments[n].segment.seq);
            state::lemma_playlist_value(segments, i);
            state::lemma_playlist_value(shorter, i);
        }
        assert forall|q: u64| #[trigger] map.dom().contains(q) implies q == last.segment.seq || before.dom().contains(
            q,
        ) by {
            let i = state::playlist_index(segments, q);
            if i < n {
                assert(shorter[i].segment.seq == q);
            }
        }
        assert(map.dom() =~= before.dom().insert(last.segment.seq));
        let f = |q: u64| map[q].segment.duration_ms as int;
        let g = |q: u64| before[q].segment.duration_ms as int;
        sums::lemma_sum_insert(before.dom(), f, last.segment.seq);
        sums::lemma_sum_same(before.dom(), f, g);
    }
}

proof fn lemma_playlist_prefix(segments: Seq<SegmentEntry>, i: int)
    requires
        0 <= i <= segments.len(),
    ensures
        0 <= playlist_duration(segments.take(i)) <= playlist_duration(segments),
    decreases segments.len(),
{
    if i == segments.len() {
        assert(segments.take(i) =~= segments);
        if i > 0 {
            let shorter = segments.drop_last();
            lemma_playlist_prefix(shorter, i - 1);
        }
    } else {
        let shorter = segments.drop_last();
        lemma_playlist_prefix(shorter, i);
        assert(shorter.take(i) =~= segments.take(i));
    }
}

/// No segments last no time.
proof fn lemma_no_duration()
    ensures
        total_duration(Map::empty()) == 0,
{
    let none = Seq::<SegmentEntry>::empty();
    lemma_playlist_duration(none);
    assert(state::playlist_map(none) =~= Map::<u64, SegmentEntry>::empty());
}

impl StoredParts {
    /// Total duration of the segments, unless it overflows.
    fn checked_duration(&self) -> (total: Option<u64>)
        requires
            self.wf(),
        ensures
            match total {
                Some(t) => t == total_duration(self@.segments),
                None => total_duration(self@.segments) > u64::MAX,
            },
    {
        let ghost segments = state::slots(self.segments@);
        let mut total: u64 = 0;
        let mut i: usize = 0;
        proof {
            lemma_playlist_duration(segments);
            assert(segments.take(0) =~= Seq::empty());
        }
        while i < self.segments.len()
            invariant
                i <= self.segments@.len(),
                segments == state::slots(self.segments@),
                total == playlist_duration(segments.take(i as int)),
                playlist_duration(segments) == total_duration(self@.segments),
            decreases self.segments.len() - i,
        {
            let step: u64 = self.segments[i].segment.duration_ms;
            proof {
                assert(segments.take(i + 1).drop_last() =~= segments.take(i as int));
                assert(segments.take(i + 1).last() == self.segments@[i as int]@);
                lemma_playlist_prefix(segments, i + 1);
            }
            match total.checked_add(step) {
                Some(t) => {
                    total = t;
                },
                None => {
                    return None;
                },
            }
            i = i + 1;
        }
        assert(segments.take(i as int) =~= segments);
        Some(total)
    }

    /// The segments in ascending order.
    fn playlist(&self) -> (list: Vec<StreamSegment>)
        requires
            self.wf(),
        ensures
            lists_segments(list.deep_view(), self@.segments),
    {
        let ghost all = state::slots(self.segments@);
        let mut list: Vec<StreamSegment> = Vec::new();
        let mut i: usize = 0;
        while i < self.segments.len()
            invariant
                i <= self.segments@.len(),
                all == state::slots(self.segments@),
                list@.len() == i,
                forall|j: int| 0 <= j < i ==> (#[trigger] list@[j])@ == all[j].segment,
            decreases self.segments.len() - i,
        {
            list.push(self.segments[i].segment.clone());
            i = i + 1;
        }
        proof {
            let plain = list.deep_view();
            assert forall|j: int| 0 <= j < plain.len() implies #[trigger] plain[j] == all[j].segment by {
                assert(list@[j]@ == all[j].segment);
            }
            assert forall|j: int| 0 <= j < plain.len() implies self@.segments.contains_key((#[trigger] plain[j]).seq)
                && self@.segments[plain[j].seq].segment == plain[j] by {
                state::lemma_playlist_value(all, j);
            }
            assert forall|q: u64| #[trigger] self@.segments.contains_key(q) implies exists|j: int|
                0 <= j < plain.len() && (#[trigger] plain[j]).seq == q by {
                let j = state::playlist_index(all, q);
                assert(all[j].segment.seq == q);
                assert(plain[j].seq == q);
            }
        }
        list
    }
}

impl State {
    /// Has the stream `id` of `author` ended?
    fn has_ended(&self, id: &str, author: &str) -> (ended: bool)
        requires
            self.wf(),
        ensures
            ended == readmodel::parts_at(self@.parts, id@, author@).ended,
    {
        match self.parts_of(id, author) {
            Some(p) => p.ended,
            None => false,
        }
    }

    /// Does what `author` has published of the stream `id` last no longer than a 64-bit count can tell?
    fn parts_fit(&self, id: &str, author: &str) -> (fits: bool)
        requires
            self.wf(),
        ensures
            fits == (total_duration(readmodel::parts_at(self@.parts, id@, author@).segments) <= u64::MAX),
    {
        match self.parts_of(id, author) {
            Some(p) => p.checked_duration().is_some(),
            None => {
                proof {
                    lemma_no_duration();
                }
                true
            },
        }
    }

    /// Does the total duration of the stream fit a 64-bit count?
    pub fn duration_fits(&self, id: &str) -> (fits: bool)
        requires
            self.wf(),
        ensures
            fits == duration_fits(self@, id@),
    {
        match self.stream_table().get(id) {
            Some(st) => self.parts_fit(id, &st.author),
            None => true,
        }
    }

    /// A stream view (live or ended) with ordered segments.
    pub fn stream(&self, id: &str) -> (view: Option<StreamView>)
        requires
            self.wf(),
            duration_fits(self@, id@),
        ensures
            match view {
                Some(v) => shows_stream(self@, id@, v),
                None => !self@.streams.contains_key(id@),
            },
    {
        match self.stream_table().get(id) {
            Some(st) => {
                let mut view = StreamView {
                    id: id.to_owned(),
                    author: st.author.clone(),
                    created_ms: st.created_ms,
                    start: st.start.clone(),
                    live: true,
                    recording_cid: None,
                    segments: Vec::new(),
                    total_duration_ms: 0,
                };
                match self.parts_of(id, &st.author) {
                    Some(p) => {
                        view.live = !p.ended;
                        view.recording_cid = match &p.recording {
                            Some(r) => Some(r.cid.clone()),
                            None => None,
                        };
                        view.segments = p.playlist();
                        view.total_duration_ms = match p.checked_duration() {
                            Some(t) => t,
                            None => 0,
                        };
                    },
                    None => {
                        proof {
                            lemma_no_duration();
                        }
                    },
                }
                Some(view)
            },
            None => None,
        }
    }

    /// All currently live streams, newest first.
    pub fn live_streams(&self) -> (views: Vec<StreamView>)
        requires
            self.wf(),
            live_fit(self@),
        ensures
            lists_live(self@, views@),
    {
        let table = self.stream_table();
        let ghost names = table.order();
        let ghost keep = |id: Seq<char>| !parts_of(self@, id).ended;
        proof {
            table.lemma_order();
            order::lemma_filter_none(names, keep);
        }
        let mut picked: Vec<usize> = Vec::new();
        let mut times: Vec<u64> = Vec::new();
        let mut ids: Vec<String> = Vec::new();
        let n: usize = table.len();
        let mut i: usize = 0;
        while i < n
            invariant
                i <= n,
                n == names.len(),
                names == table.order(),
                table.wf(),
                self.wf(),
                keep == (|id: Seq<char>| !parts_of(self@, id).ended),
                forall|k: Seq<char>| #[trigger] table@.contains_key(k) ==> table@[k]@ == self@.streams[k],
                times@.len() == picked@.len(),
                ids@.len() == picked@.len(),
                forall|j: int| 0 <= j < picked@.len() ==> (#[trigger] ids@[j])@ == names[picked@[j] as int],
                forall|j: int| 0 <= j < picked@.len() ==> (#[trigger] picked@[j]) < n,
                picked@.map_values(|p: usize| names[p as int]) == names.take(i as int).filter(keep),
                forall|j: int|
                    0 <= j < picked@.len() ==> #[trigger] times@[j] == self@.streams[names[picked@[j] as int]].created_ms,
            decreases n - i,
        {
            let st = table.val_at(i);
            let ghost before = picked@;
            proof {
                order::lemma_filter_next(names, keep, i as int);
            }
            if !self.has_ended(table.key_at(i), &st.author) {
                picked.push(i);
                times.push(st.created_ms);
                ids.push(table.key_at(i).clone());
                proof {
                    assert(picked@.map_values(|p: usize| names[p as int]) =~= before.map_values(
                        |p: usize| names[p as int],
                    ).push(names[i as int]));
                }
            }
            i = i + 1;
        }
        let ghost chosen = names.filter(keep);
        let sorted = order::by_time(&times, &ids);
        let ghost indices = sorted@.map_values(|i: usize| i as int);
        proof {
            order::lemma_filtered(names, keep);
            assert(picked@.map_values(|p: usize| names[p as int]).len() == picked@.len());
            order::lemma_arranged(chosen, indices);
            assert(names.to_set().filter(keep) =~= live_ids(self@));
        }
        let mut views: Vec<StreamView> = Vec::new();
        let mut i: usize = 0;
        while i < sorted.len()
            invariant
                i <= sorted@.len(),
                n == names.len(),
                names == table.order(),
                table.wf(),
                self.wf(),
                table@.dom() == self@.streams.dom(),
                forall|id: Seq<char>| #[trigger] live_ids(self@).contains(id) ==> duration_fits(self@, id),
                sorted@.len() == picked@.len(),
                indices == sorted@.map_values(|i: usize| i as int),
                order::lists_all(indices, sorted@.len() as int),
                forall|j: int| 0 <= j < picked@.len() ==> (#[trigger] picked@[j]) < n,
                chosen == picked@.map_values(|p: usize| names[p as int]),
                chosen.to_set() == live_ids(self@),
                views@.len() == i,
                forall|j: int| 0 <= j < i ==> shows_stream(self@, chosen[indices[j]], #[trigger] views@[j]),
            decreases sorted.len() - i,
        {
            let at: usize = sorted[i];
            assert(at as int == indices[i as int]);
            let slot: usize = picked[at];
            assert(chosen[at as int] == names[slot as int]);
            assert(chosen.to_set().contains(chosen[at as int]));
            if let Some(view) = self.stream(table.key_at(slot)) {
                views.push(view);
            }
            i = i + 1;
        }
        proof {
            assert forall|j: int| 0 <= j < views@.len() implies (#[trigger] views@[j]).id@ == chosen[indices[j]] by {
                assert(shows_stream(self@, chosen[indices[j]], views@[j]));
            }
            assert(views@.map_values(|v: StreamView| v.id@) =~= order::arranged(chosen, indices));
            let stamps = order::stamps_of(times@, ids@);
            let shown = views@.map_values(|v: StreamView| (v.created_ms, v.id@));
            assert forall|j: int| 0 <= j < views@.len() implies shown[j] == order::arranged(stamps, indices)[j] by {
                assert(shows_stream(self@, chosen[indices[j]], views@[j]));
                assert(chosen[indices[j]] == names[picked@[indices[j]] as int]);
                assert(times@[indices[j]] == self@.streams[names[picked@[indices[j]] as int]].created_ms);
                assert(ids@[indices[j]]@ == names[picked@[indices[j]] as int]);
            }
            assert(shown =~= order::arranged(stamps, indices));
        }
        views
    }

    /// Do the total durations of all live streams fit 64-bit counts?
    pub fn live_durations_fit(&self) -> (fit: bool)
        requires
            self.wf(),
        ensures
            fit == live_fit(self@),
    {
        let table = self.stream_table();
        let ghost names = table.order();
        proof {
            table.lemma_order();
        }
        let n: usize = table.len();
        let mut i: usize = 0;
        while i < n
            invariant
                i <= n,
                n == names.len(),
                names == table.order(),
                table.wf(),
                self.wf(),
                table@.dom() == self@.streams.dom(),
                forall|k: Seq<char>| #[trigger] table@.contains_key(k) ==> table@[k]@ == self@.streams[k],
                forall|j: int|
                    0 <= j < i && !parts_of(self@, #[trigger] names[j]).ended ==> duration_fits(self@, names[j]),
            decreases n - i,
        {
            let st = table.val_at(i);
            let id = table.key_at(i);
            if !self.has_ended(id, &st.author) && !self.parts_fit(id, &st.author) {
                assert(live_ids(self@).contains(names[i as int]));
                return false;
            }
            i = i + 1;
        }
        proof {
            assert forall|id: Seq<char>| #[trigger] live_ids(self@).contains(id) implies duration_fits(self@, id) by {
                assert(names.contains(id));
                let j = choose|j: int| 0 <= j < names.len() && names[j] == id;
            }
        }
        true
    }
}

} // verus!
