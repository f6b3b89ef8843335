//! Free-form metadata: a text-to-text map, kept in key order.
use crate::text;
use vstd::prelude::*;
use vstd::utf8;

verus! {

/// One entry of the metadata map.
pub type Entry = (Seq<char>, Seq<char>);

/// The keys ascend strictly in byte order.
pub open spec fn ascending(entries: Seq<Entry>) -> bool {
    forall|i: int, j: int| 0 <= i < j < entries.len() ==> text::text_before(#[trigger] entries[i].0, #[trigger] entries[j].0)
}

/// Does some entry have the key `k`?
pub open spec fn has_key(entries: Seq<Entry>, k: Seq<char>) -> bool {
    exists|i: int| 0 <= i < entries.len() && #[trigger] entries[i].0 == k
}

/// Where the key `k` stands.
pub open spec fn position(entries: Seq<Entry>, k: Seq<char>) -> int {
    choose|i: int| 0 <= i < entries.len() && #[trigger] entries[i].0 == k
}

/// The map that a list of entries spells out.
pub open spec fn entries_map(entries: Seq<Entry>) -> Map<Seq<char>, Seq<char>> {
    Map::new(|k: Seq<char>| has_key(entries, k), |k: Seq<char>| entries[position(entries, k)].1)
}

/// In an ascending list every key stands once.
pub proof fn lemma_ascending_unique(entries: Seq<Entry>, i: int, j: int)
    requires
        ascending(entries),
        0 <= i < entries.len(),
        0 <= j < entries.len(),
        entries[i].0 == entries[j].0,
    ensures
        i == j,
{
    text::lemma_bytes_irreflexive(utf8::encode_utf8(entries[i].0));
}

/// The value of the key at position `i` of an ascending list.
pub proof fn lemma_entry_value(entries: Seq<Entry>, i: int)
    requires
        ascending(entries),
        0 <= i < entries.len(),
    ensures
        entries_map(entries).contains_key(entries[i].0),
        entries_map(entries)[entries[i].0] == entries[i].1,
{
    assert(has_key(entries, entries[i].0));
    lemma_ascending_unique(entries, i, position(entries, entries[i].0));
}

proof fn lemma_first_key(a: Seq<Entry>, b: Seq<Entry>)
    requires
        ascending(a),
        ascending(b),
        entries_map(a) == entries_map(b),
        a.len() > 0,
    ensures
        b.len() > 0,
        a[0] == b[0],
{
    lemma_entry_value(a, 0);
    let j = choose|j: int| 0 <= j < b.len() && #[trigger] b[j].0 == a[0].0;
    assert(b.len() > 0);
    lemma_entry_value(b, 0);
    let i = choose|i: int| 0 <= i < a.len() && #[trigger] a[i].0 == b[0].0;
    if i > 0 && j > 0 {
        assert(text::text_before(a[0].0, a[i].0));
        assert(text::text_before(b[0].0, b[j].0));
        text::lemma_bytes_transitive(utf8::encode_utf8(a[0].0), utf8::encode_utf8(b[0].0), utf8::encode_utf8(a[0].0));
        text::lemma_bytes_irreflexive(utf8::encode_utf8(a[0].0));
    }
    assert(a[0].0 == b[0].0);
}

/// A map has one ascending list: equal metadata is laid out equally.
pub proof fn law_layout_is_canonical(a: Seq<Entry>, b: Seq<Entry>)
    requires
        ascending(a),
        ascending(b),
        entries_map(a) == entries_map(b),
    ensures
        a == b,
    decreases a.len(),
{
    if a.len() == 0 {
        if b.len() > 0 {
            lemma_first_key(b, a);
        }
        assert(a =~= b);
    } else {
        lemma_first_key(a, b);
        let x = a.skip(1);
        let y = b.skip(1);
        assert forall|k: Seq<char>|
            #![trigger entries_map(x).dom().contains(k)]
            #![trigger entries_map(y).dom().contains(k)]
            entries_map(x).dom().contains(k) == entries_map(y).dom().contains(k) && (entries_map(x).dom().contains(k)
                ==> entries_map(x)[k] == entries_map(y)[k]) by {
            lemma_tail(a, b, k);
            lemma_tail(b, a, k);
        }
        assert(entries_map(x) =~= entries_map(y));
        law_layout_is_canonical(x, y);
        assert(a =~= seq![a[0]] + x);
        assert(b =~= seq![b[0]] + y);
    }
}

proof fn lemma_tail(a: Seq<Entry>, b: Seq<Entry>, k: Seq<char>)
    requires
        ascending(a),
        ascending(b),
        entries_map(a) == entries_map(b),
        a.len() > 0,
        b.len() > 0,
        a[0] == b[0],
    ensures
        entries_map(a.skip(1)).contains_key(k) ==> entries_map(b.skip(1)).contains_key(k) && entries_map(a.skip(1))[k]
            == entries_map(b.skip(1))[k],
{
    let x = a.skip(1);
    let y = b.skip(1);
    if entries_map(x).contains_key(k) {
        let i = choose|i: int| 0 <= i < x.len() && #[trigger] x[i].0 == k;
        assert(a[i + 1].0 == k);
        lemma_entry_value(a, i + 1);
        assert(entries_map(b).contains_key(k));
        let j = choose|j: int| 0 <= j < b.len() && #[trigger] b[j].0 == k;
        lemma_entry_value(b, j);
        if j == 0 {
            lemma_ascending_unique(a, 0, i + 1);
        }
        assert(y[j - 1].0 == k);
        assert(ascending(x)) by {
            assert forall|p: int, q: int| 0 <= p < q < x.len() implies text::text_before(
                #[trigger] x[p].0,
                #[trigger] x[q].0,
            ) by {
                assert(text::text_before(a[p + 1].0, a[q + 1].0));
            }
        }
        assert(ascending(y)) by {
            assert forall|p: int, q: int| 0 <= p < q < y.len() implies text::text_before(
                #[trigger] y[p].0,
                #[trigger] y[q].0,
            ) by {
                assert(text::text_before(b[p + 1].0, b[q + 1].0));
            }
        }
        lemma_entry_value(x, i);
        lemma_entry_value(y, j - 1);
    }
}

/// Arbitrary extra metadata (codec, episode number, captions, ...): keys in ascending byte order.
pub struct Extra {
    entries: Vec<(String, String)>,
}

impl View for Extra {
    type V = Seq<Entry>;

    closed spec fn view(&self) -> Seq<Entry> {
        self.entries.deep_view()
    }
}

impl Extra {
    #[verifier::type_invariant]
    closed spec fn sorted(&self) -> bool {
        ascending(self.entries.deep_view())
    }

    /// No metadata.
    pub fn new() -> (extra: Self)
        ensures
            extra@ == Seq::<Entry>::empty(),
    {
        let extra = Extra { entries: Vec::new() };
        assert(extra@ =~= Seq::<Entry>::empty());
        extra
    }

    /// How many keys there are; they ascend strictly in byte order.
    pub fn len(&self) -> (n: usize)
        ensures
            n == self@.len(),
            ascending(self@),
    {
        proof {
            use_type_invariant(self);
        }
        self.entries.len()
    }

    /// The `i`-th entry in key order.
    pub fn entry(&self, i: usize) -> (entry: (&String, &String))
        requires
            i < self@.len(),
        ensures
            (entry.0@, entry.1@) == self@[i as int],
    {
        (&self.entries[i].0, &self.entries[i].1)
    }

    /// The value under `key`.
    pub fn get(&self, key: &str) -> (value: Option<&String>)
        ensures
            match value {
                Some(v) => entries_map(self@).contains_key(key@) && v@ == entries_map(self@)[key@],
                None => !entries_map(self@).contains_key(key@),
            },
    {
        proof {
            use_type_invariant(self);
        }
        let mut i: usize = 0;
        while i < self.entries.len()
            invariant
                i <= self.entries.len(),
                ascending(self@),
                self@ == self.entries.deep_view(),
                forall|j: int| 0 <= j < i ==> #[trigger] self@[j].0 != key@,
            decreases self.entries.len() - i,
        {
            assert(self@[i as int].0 == self.entries@[i as int].0@);
            if text::same_text(&self.entries[i].0, key) {
                proof {
                    lemma_entry_value(self@, i as int);
                }
                return Some(&self.entries[i].1);
            }
            i = i + 1;
        }
        None
    }

    /// Put `value` under `key`, replacing what was there.
    pub fn insert(&mut self, key: String, value: String)
        ensures
            entries_map(final(self)@) == entries_map(old(self)@).insert(key@, value@),
    {
        proof {
            use_type_invariant(&*self);
        }
        let mut entries: Vec<(String, String)> = Vec::new();
        std::mem::swap(&mut entries, &mut self.entries);
        let ghost start = entries.deep_view();
        let mut i: usize = 0;
        while i < entries.len() && text::sorts_before(&entries[i].0, &key)
            invariant
                i <= entries.len(),
                start == entries.deep_view(),
                forall|j: int| 0 <= j < i ==> text::text_before(#[trigger] start[j].0, key@),
            decreases entries.len() - i,
        {
            assert(start[i as int].0 == entries@[i as int].0@);
            i = i + 1;
        }
        let ghost entry = (key@, value@);
        if i < entries.len() && text::same_text(&entries[i].0, &key) {
            proof {
                assert(start[i as int].0 == key@);
            }
            entries.set(i, (key, value));
            proof {
                assert(entries.deep_view() =~= start.update(i as int, entry));
                lemma_replaced(start, i as int, entry);
            }
        } else {
            proof {
                if i < entries.len() {
                    assert(start[i as int].0 == entries@[i as int].0@);
                    if utf8::encode_utf8(start[i as int].0) == utf8::encode_utf8(key@) {
                        text::lemma_utf8_injective(start[i as int].0, key@);
                    }
                    text::lemma_bytes_total(utf8::encode_utf8(start[i as int].0), utf8::encode_utf8(key@));
                }
            }
            entries.insert(i, (key, value));
            proof {
                assert(entries.deep_view() =~= start.insert(i as int, entry));
                lemma_inserted(start, i as int, entry);
            }
        }
        self.entries = entries;
    }
}

proof fn lemma_replaced(start: Seq<Entry>, i: int, entry: Entry)
    requires
        ascending(start),
        0 <= i < start.len(),
        start[i].0 == entry.0,
    ensures
        ascending(start.update(i, entry)),
        entries_map(start.update(i, entry)) == entries_map(start).insert(entry.0, entry.1),
{
    let after = start.update(i, entry);
    assert forall|p: int, q: int| 0 <= p < q < after.len() implies text::text_before(
        #[trigger] after[p].0,
        #[trigger] after[q].0,
    ) by {
        assert(text::text_before(start[p].0, start[q].0));
    }
    let expect = entries_map(start).insert(entry.0, entry.1);
    assert forall|k: Seq<char>|
        #![trigger entries_map(after).dom().contains(k)]
        #![trigger expect.dom().contains(k)]
        entries_map(after).dom().contains(k) == expect.dom().contains(k) && (expect.dom().contains(k) ==> entries_map(
            after,
        )[k] == expect[k]) by {
        if entries_map(after).contains_key(k) {
            let p = choose|p: int| 0 <= p < after.len() && #[trigger] after[p].0 == k;
            assert(start[p].0 == k);
        }
        if expect.contains_key(k) {
            if k == entry.0 {
                assert(after[i].0 == k);
                lemma_entry_value(after, i);
            } else {
                let p = choose|p: int| 0 <= p < start.len() && #[trigger] start[p].0 == k;
                assert(after[p].0 == k);
                lemma_entry_value(start, p);
                lemma_entry_value(after, p);
            }
        }
    }
    assert(entries_map(after) =~= expect);
}

proof fn lemma_inserted(start: Seq<Entry>, i: int, entry: Entry)
    requires
        ascending(start),
        0 <= i <= start.len(),
        forall|j: int| 0 <= j < i ==> text::text_before(#[trigger] start[j].0, entry.0),
        i < start.len() ==> text::text_before(entry.0, start[i].0),
    ensures
        ascending(start.insert(i, entry)),
        entries_map(start.insert(i, entry)) == entries_map(start).insert(entry.0, entry.1),
{
    let after = start.insert(i, entry);
    assert forall|j: int| i <= j < start.len() implies text::text_before(entry.0, #[trigger] start[j].0) by {
        if i < j {
            assert(text::text_before(start[i].0, start[j].0));
            text::lemma_bytes_transitive(utf8::encode_utf8(entry.0), utf8::encode_utf8(start[i].0), utf8::encode_utf8(start[j].0));
        }
    }
    assert forall|p: int, q: int| 0 <= p < q < after.len() implies text::text_before(
        #[trigger] after[p].0,
        #[trigger] after[q].0,
    ) by {
        let sp = if p < i { p } else { p - 1 };
        let sq = if q < i { q } else { q - 1 };
        if p != i && q != i {
            assert(text::text_before(start[sp].0, start[sq].0));
        } else if p == i {
            assert(after[q] == start[sq]);
        } else {
            assert(after[p] == start[p]);
        }
    }
    let expect = entries_map(start).insert(entry.0, entry.1);
    assert forall|k: Seq<char>|
        #![trigger entries_map(after).dom().contains(k)]
        #![trigger expect.dom().contains(k)]
        entries_map(after).dom().contains(k) == expect.dom().contains(k) && (expect.dom().contains(k) ==> entries_map(
            after,
        )[k] == expect[k]) by {
        if entries_map(after).contains_key(k) {
            let p = choose|p: int| 0 <= p < after.len() && #[trigger] after[p].0 == k;
            if p < i {
                assert(start[p].0 == k);
            } else if p > i {
                assert(start[p - 1].0 == k);
            }
        }
        if expect.contains_key(k) {
            if k == entry.0 {
                assert(after[i].0 == k);
                lemma_entry_value(after, i);
            } else {
                let p = choose|p: int| 0 <= p < start.len() && #[trigger] start[p].0 == k;
                lemma_entry_value(start, p);
                if p < i {
                    assert(after[p].0 == k);
                    lemma_entry_value(after, p);
                } else {
                    assert(after[p + 1].0 == k);
                    lemma_entry_value(after, p + 1);
                }
            }
        }
    }
    assert(entries_map(after) =~= expect);
}

impl Default for Extra {
    fn default() -> (extra: Self)
        ensures
            extra@ == Seq::<Entry>::empty(),
    {
        Extra::new()
    }
}

impl Clone for Extra {
    fn clone(&self) -> (copy: Self)
        ensures
            copy@ == self@,
    {
        proof {
            use_type_invariant(self);
        }
        let mut entries: Vec<(String, String)> = Vec::new();
        let mut i: usize = 0;
        while i < self.entries.len()
            invariant
                i <= self.entries.len(),
                entries.deep_view() == self.entries.deep_view().take(i as int),
            decreases self.entries.len() - i,
        {
            let ghost before = entries.deep_view();
            entries.push((self.entries[i].0.clone(), self.entries[i].1.clone()));
            i = i + 1;
            assert(entries.deep_view() =~= before.push(self.entries.deep_view()[i - 1]));
            assert(entries.deep_view() =~= self.entries.deep_view().take(i as int));
        }
        assert(self.entries.deep_view().take(i as int) =~= self.entries.deep_view());
        Extra { entries }
    }
}

} // verus!
