//! Ranking: the one order behind every feed and every newest-first list.
use crate::text;
use vstd::prelude::*;
use vstd::utf8;

verus! {

/// What an item is ranked by: a key, then its time, then its id. Higher and newer come first, and of
/// equal ones the smaller id.
#[verifier::ext_equal]
pub struct Rank {
    pub key: i64,
    pub at: u64,
    pub id: Seq<char>,
}

/// A rank as computed.
pub struct RankKey {
    pub key: i64,
    pub at: u64,
    pub id: String,
}

impl View for RankKey {
    type V = Rank;

    open spec fn view(&self) -> Rank {
        Rank { key: self.key, at: self.at, id: self.id@ }
    }
}

/// The ranks of a list.
pub open spec fn ranks_in(keys: Seq<RankKey>) -> Seq<Rank> {
    keys.map_values(|k: RankKey| k@)
}

/// `a` comes strictly before `b`.
pub open spec fn outranks(a: Rank, b: Rank) -> bool {
    a.key > b.key || (a.key == b.key && (a.at > b.at || (a.at == b.at && text::text_before(a.id, b.id))))
}

/// Different ranks: exactly one comes first.
pub proof fn lemma_outranks_total(a: Rank, b: Rank)
    ensures
        outranks(a, b) ==> !outranks(b, a),
        a != b ==> outranks(a, b) || outranks(b, a),
        !outranks(a, a),
{
    let x = utf8::encode_utf8(a.id);
    let y = utf8::encode_utf8(b.id);
    text::lemma_bytes_irreflexive(x);
    if x == y {
        text::lemma_utf8_injective(a.id, b.id);
    } else {
        text::lemma_bytes_total(x, y);
    }
}

proof fn lemma_outranks_transitive(a: Rank, b: Rank, c: Rank)
    requires
        outranks(a, b),
        outranks(b, c),
    ensures
        outranks(a, c),
{
    if a.key == b.key && b.key == c.key && a.at == b.at && b.at == c.at {
        text::lemma_bytes_transitive(utf8::encode_utf8(a.id), utf8::encode_utf8(b.id), utf8::encode_utf8(c.id));
    }
}

/// How three ranks stand to each other.
proof fn lemma_outranks(a: Rank, b: Rank, c: Rank)
    ensures
        outranks(a, b) && !outranks(c, b) ==> outranks(a, c),
        !outranks(a, b) && !outranks(b, c) ==> !outranks(a, c),
{
    lemma_outranks_total(a, b);
    lemma_outranks_total(b, c);
    lemma_outranks_total(a, c);
    if outranks(a, b) && !outranks(c, b) {
        if b != c {
            lemma_outranks_transitive(a, b, c);
        }
    }
    if !outranks(a, b) && !outranks(b, c) && outranks(a, c) {
        if a != b {
            lemma_outranks_transitive(b, a, c);
        }
    }
}

/// Does `a` come strictly before `b`?
fn is_better(a: &RankKey, b: &RankKey) -> (yes: bool)
    ensures
        yes == outranks(a@, b@),
{
    a.key > b.key || (a.key == b.key && (a.at > b.at || (a.at == b.at && text::sorts_before(&a.id, &b.id))))
}

/// The order with item `x` put in behind everything that it does not outrank.
pub open spec fn placed(order: Seq<int>, ranks: Seq<Rank>, x: int) -> Seq<int>
    decreases order.len(),
{
    if order.len() > 0 && outranks(ranks[x], ranks[order.last()]) {
        placed(order.drop_last(), ranks, x).push(order.last())
    } else {
        order.push(x)
    }
}

/// The first `n` items, best first; items of one rank keep their order.
pub open spec fn ranking(ranks: Seq<Rank>, n: int) -> Seq<int>
    decreases n,
{
    if n <= 0 {
        Seq::empty()
    } else {
        placed(ranking(ranks, n - 1), ranks, n - 1)
    }
}

/// No item stands behind one that it outranks.
pub open spec fn well_ranked(order: Seq<int>, ranks: Seq<Rank>) -> bool {
    forall|i: int, j: int| 0 <= i < j < order.len() ==> !outranks(ranks[#[trigger] order[j]], ranks[#[trigger] order[i]])
}

/// Items of one rank keep the order they had.
pub open spec fn stable(order: Seq<int>, ranks: Seq<Rank>) -> bool {
    forall|i: int, j: int|
        0 <= i < j < order.len() && ranks[#[trigger] order[i]] == ranks[#[trigger] order[j]] ==> order[i] < order[j]
}

/// Every one of the first `n` items stands in the order once.
pub open spec fn lists_all(order: Seq<int>, n: int) -> bool {
    &&& order.len() == n
    &&& order.no_duplicates()
    &&& forall|i: int| 0 <= i < order.len() ==> 0 <= #[trigger] order[i] < n
    &&& forall|x: int| 0 <= x < n ==> #[trigger] order.contains(x)
}

/// Where an item goes: `p` is its place if it outranks all from `p` on and not the one before.
proof fn lemma_placed(order: Seq<int>, ranks: Seq<Rank>, x: int, p: int)
    requires
        0 <= p <= order.len(),
        forall|i: int| p <= i < order.len() ==> outranks(ranks[x], ranks[#[trigger] order[i]]),
        p > 0 ==> !outranks(ranks[x], ranks[order[p - 1]]),
    ensures
        placed(order, ranks, x) == order.insert(p, x),
    decreases order.len(),
{
    if p == order.len() {
        assert(order.insert(p, x) =~= order.push(x));
    } else {
        let last = order.last();
        assert(last == order[order.len() - 1]);
        let shorter = order.drop_last();
        assert forall|i: int| p <= i < shorter.len() implies outranks(ranks[x], ranks[#[trigger] shorter[i]]) by {
            assert(shorter[i] == order[i]);
        }
        if p > 0 {
            assert(shorter[p - 1] == order[p - 1]);
        }
        lemma_placed(shorter, ranks, x, p);
        assert(order.insert(p, x) =~= shorter.insert(p, x).push(last));
    }
}

/// The place of an item in a well-ranked order.
spec fn place_of(order: Seq<int>, ranks: Seq<Rank>, x: int) -> int
    decreases order.len(),
{
    if order.len() > 0 && outranks(ranks[x], ranks[order.last()]) {
        place_of(order.drop_last(), ranks, x)
    } else {
        order.len() as int
    }
}

proof fn lemma_place_of(order: Seq<int>, ranks: Seq<Rank>, x: int)
    ensures
        0 <= place_of(order, ranks, x) <= order.len(),
        forall|i: int| place_of(order, ranks, x) <= i < order.len() ==> outranks(ranks[x], ranks[#[trigger] order[i]]),
        place_of(order, ranks, x) > 0 ==> !outranks(ranks[x], ranks[order[place_of(order, ranks, x) - 1]]),
        placed(order, ranks, x) == order.insert(place_of(order, ranks, x), x),
    decreases order.len(),
{
    if order.len() > 0 && outranks(ranks[x], ranks[order.last()]) {
        let shorter = order.drop_last();
        lemma_place_of(shorter, ranks, x);
        let p = place_of(order, ranks, x);
        assert forall|i: int| p <= i < order.len() implies outranks(ranks[x], ranks[#[trigger] order[i]]) by {
            if i < shorter.len() {
                assert(shorter[i] == order[i]);
            }
        }
        if p > 0 {
            assert(shorter[p - 1] == order[p - 1]);
        }
    }
    lemma_placed(order, ranks, x, place_of(order, ranks, x));
}

/// A ranking lists every item once, no item behind one that it outranks, and items of one rank in the
/// order they had.
pub proof fn law_ranking(ranks: Seq<Rank>, n: int)
    requires
        0 <= n <= ranks.len(),
    ensures
        lists_all(ranking(ranks, n), n),
        well_ranked(ranking(ranks, n), ranks),
        stable(ranking(ranks, n), ranks),
    decreases n,
{
    if n > 0 {
        law_ranking(ranks, n - 1);
        let before = ranking(ranks, n - 1);
        let x = n - 1;
        lemma_place_of(before, ranks, x);
        let p = place_of(before, ranks, x);
        let after = before.insert(p, x);
        assert forall|i: int, j: int| 0 <= i < j < after.len() implies !outranks(
            ranks[#[trigger] after[j]],
            ranks[#[trigger] after[i]],
        ) by {
            let bi = if i < p { i } else { i - 1 };
            let bj = if j < p { j } else { j - 1 };
            if i != p && j != p {
                assert(after[i] == before[bi] && after[j] == before[bj]);
            } else if i == p {
                assert(after[j] == before[bj]);
                lemma_outranks_total(ranks[x], ranks[before[bj]]);
            } else {
                assert(after[i] == before[i]);
                assert(!outranks(ranks[x], ranks[before[p - 1]]));
                if i < p - 1 {
                    assert(!outranks(ranks[before[p - 1]], ranks[before[i]]));
                    lemma_outranks(ranks[x], ranks[before[p - 1]], ranks[before[i]]);
                }
            }
        }
        assert forall|i: int, j: int|
            0 <= i < j < after.len() && ranks[#[trigger] after[i]] == ranks[#[trigger] after[j]] implies after[i]
            < after[j] by {
            let bi = if i < p { i } else { i - 1 };
            let bj = if j < p { j } else { j - 1 };
            if i != p && j != p {
                assert(after[i] == before[bi] && after[j] == before[bj]);
            } else if i == p {
                assert(after[j] == before[bj]);
                assert(outranks(ranks[x], ranks[before[bj]]));
                lemma_outranks_total(ranks[x], ranks[x]);
            } else {
                assert(after[i] == before[i]);
            }
        }
        assert forall|i: int| 0 <= i < after.len() implies 0 <= #[trigger] after[i] < n by {
            if i < p {
                assert(after[i] == before[i]);
            } else if i > p {
                assert(after[i] == before[i - 1]);
            }
        }
        assert forall|y: int| 0 <= y < n implies #[trigger] after.contains(y) by {
            if y == x {
                assert(after[p] == y);
            } else {
                assert(before.contains(y));
                let i = choose|i: int| 0 <= i < before.len() && before[i] == y;
                if i < p {
                    assert(after[i] == y);
                } else {
                    assert(after[i + 1] == y);
                }
            }
        }
        assert(after.no_duplicates()) by {
            assert forall|i: int, j: int| 0 <= i < after.len() && 0 <= j < after.len() && i != j implies after[i]
                != after[j] by {
                let bi = if i < p { i } else { i - 1 };
                let bj = if j < p { j } else { j - 1 };
                if i != p {
                    assert(after[i] == before[bi]);
                }
                if j != p {
                    assert(after[j] == before[bj]);
                }
            }
        }
    }
}

/// The items as indices, best first; items of one rank keep their order.
pub fn ranked(ranks: &Vec<RankKey>) -> (order: Vec<usize>)
    ensures
        order@.len() == ranks@.len(),
        order@.map_values(|i: usize| i as int) == ranking(ranks_in(ranks@), ranks@.len() as int),
        lists_all(order@.map_values(|i: usize| i as int), ranks@.len() as int),
{
    let ghost keys = ranks_in(ranks@);
    let mut order: Vec<usize> = Vec::new();
    let mut x: usize = 0;
    proof {
        assert(order@.map_values(|i: usize| i as int) =~= Seq::empty());
    }
    while x < ranks.len()
        invariant
            x <= ranks@.len(),
            keys == ranks_in(ranks@),
            order@.len() == x,
            order@.map_values(|i: usize| i as int) == ranking(keys, x as int),
        decreases ranks.len() - x,
    {
        let ghost indices = ranking(keys, x as int);
        proof {
            law_ranking(keys, x as int);
            assert(forall|i: int| 0 <= i < x ==> (#[trigger] order@[i]) as int == indices[i]);
        }
        let mut lo: usize = 0;
        let mut hi: usize = order.len();
        while lo < hi
            invariant
                lo <= hi <= order@.len(),
                order@.len() == x,
                x < ranks@.len(),
                keys == ranks_in(ranks@),
                indices.len() == x,
                forall|i: int| 0 <= i < x ==> (#[trigger] order@[i]) as int == indices[i],
                forall|i: int| 0 <= i < x ==> 0 <= #[trigger] indices[i] < x,
                well_ranked(indices, keys),
                forall|i: int| 0 <= i < lo ==> !outranks(keys[x as int], keys[#[trigger] indices[i]]),
                forall|i: int| hi <= i < x ==> outranks(keys[x as int], keys[#[trigger] indices[i]]),
            decreases hi - lo,
        {
            let mid: usize = lo + (hi - lo) / 2;
            let at: usize = order[mid];
            assert(at as int == indices[mid as int]);
            let ghost r = keys[x as int];
            if is_better(&ranks[x], &ranks[at]) {
                assert forall|i: int| mid <= i < x implies outranks(r, keys[#[trigger] indices[i]]) by {
                    if i > mid {
                        assert(!outranks(keys[indices[i]], keys[indices[mid as int]]));
                        lemma_outranks(r, keys[indices[mid as int]], keys[indices[i]]);
                    }
                }
                hi = mid;
            } else {
                assert forall|i: int| 0 <= i <= mid implies !outranks(r, keys[#[trigger] indices[i]]) by {
                    if i < mid {
                        assert(!outranks(keys[indices[mid as int]], keys[indices[i]]));
                        lemma_outranks(r, keys[indices[mid as int]], keys[indices[i]]);
                    }
                }
                lo = mid + 1;
            }
        }
        proof {
            lemma_placed(indices, keys, x as int, lo as int);
        }
        order.insert(lo, x);
        proof {
            assert(order@.map_values(|i: usize| i as int) =~= indices.insert(lo as int, x as int));
        }
        x = x + 1;
    }
    proof {
        law_ranking(keys, ranks@.len() as int);
    }
    order
}

/// The items in the given order.
pub open spec fn arranged<T>(items: Seq<T>, order: Seq<int>) -> Seq<T> {
    Seq::new(order.len(), |i: int| items[order[i]])
}

/// Reordering distinct items keeps them distinct, and the same.
pub proof fn lemma_arranged<T>(items: Seq<T>, order: Seq<int>)
    requires
        lists_all(order, items.len() as int),
    ensures
        arranged(items, order).len() == items.len(),
        items.no_duplicates() ==> arranged(items, order).no_duplicates(),
        arranged(items, order).to_set() == items.to_set(),
{
    let after = arranged(items, order);
    assert forall|x: T| after.to_set().contains(x) <==> items.to_set().contains(x) by {
        if after.contains(x) {
            let i = choose|i: int| 0 <= i < after.len() && after[i] == x;
            assert(items[order[i]] == x);
        }
        if items.contains(x) {
            let i = choose|i: int| 0 <= i < items.len() && items[i] == x;
            assert(order.contains(i));
            let j = choose|j: int| 0 <= j < order.len() && order[j] == i;
            assert(after[j] == x);
        }
    }
    assert(after.to_set() =~= items.to_set());
    if items.no_duplicates() {
        assert forall|i: int, j: int| 0 <= i < after.len() && 0 <= j < after.len() && i != j implies after[i]
            != after[j] by {
            assert(order[i] != order[j]);
        }
    }
}

/// Newest first, and of one time the smaller id first.
pub open spec fn newest_first(stamps: Seq<(u64, Seq<char>)>) -> bool {
    forall|i: int, j: int|
        0 <= i < j < stamps.len() ==> (#[trigger] stamps[i]).0 > (#[trigger] stamps[j]).0 || (stamps[i].0 == stamps[j].0
            && !text::text_before(stamps[j].1, stamps[i].1))
}

/// The times and the ids, side by side.
pub open spec fn stamps_of(times: Seq<u64>, ids: Seq<String>) -> Seq<(u64, Seq<char>)> {
    Seq::new(times.len(), |i: int| (times[i], ids[i]@))
}

/// Indices of the items, newest first, and of one time the smaller id first.
pub fn by_time(times: &Vec<u64>, ids: &Vec<String>) -> (order: Vec<usize>)
    requires
        times@.len() == ids@.len(),
    ensures
        order@.len() == times@.len(),
        lists_all(order@.map_values(|i: usize| i as int), times@.len() as int),
        newest_first(arranged(stamps_of(times@, ids@), order@.map_values(|i: usize| i as int))),
{
    let mut ranks: Vec<RankKey> = Vec::new();
    let mut i: usize = 0;
    while i < times.len()
        invariant
            i <= times@.len(),
            times@.len() == ids@.len(),
            ranks@.len() == i,
            forall|j: int| 0 <= j < i ==> (#[trigger] ranks@[j])@ == (Rank { key: 0, at: times@[j], id: ids@[j]@ }),
        decreases times.len() - i,
    {
        ranks.push(RankKey { key: 0, at: times[i], id: ids[i].clone() });
        i = i + 1;
    }
    let order = ranked(&ranks);
    proof {
        let indices = order@.map_values(|i: usize| i as int);
        let keys = ranks_in(ranks@);
        law_ranking(keys, ranks@.len() as int);
        let sorted = arranged(stamps_of(times@, ids@), indices);
        assert forall|i: int, j: int| 0 <= i < j < sorted.len() implies (#[trigger] sorted[i]).0 > (
        #[trigger] sorted[j]).0 || (sorted[i].0 == sorted[j].0 && !text::text_before(sorted[j].1, sorted[i].1)) by {
            assert(!outranks(keys[indices[j]], keys[indices[i]]));
            assert(keys[indices[i]] == ranks@[indices[i]]@ && keys[indices[j]] == ranks@[indices[j]]@);
        }
    }
    order
}

/// Each text once, in ascending order.
pub open spec fn alphabetical(list: Seq<Seq<char>>) -> bool {
    forall|i: int, j: int| 0 <= i < j < list.len() ==> text::text_before(#[trigger] list[i], #[trigger] list[j])
}

/// Distinct texts, in ascending order.
pub fn sorted(found: &Vec<String>) -> (list: Vec<String>)
    requires
        found.deep_view().no_duplicates(),
    ensures
        list.deep_view().no_duplicates(),
        list.deep_view().to_set() == found.deep_view().to_set(),
        alphabetical(list.deep_view()),
{
    let mut times: Vec<u64> = Vec::new();
    let mut i: usize = 0;
    while i < found.len()
        invariant
            i <= found@.len(),
            times@.len() == i,
            forall|j: int| 0 <= j < i ==> #[trigger] times@[j] == 0,
        decreases found.len() - i,
    {
        times.push(0);
        i = i + 1;
    }
    let at = by_time(&times, found);
    let ghost indices = at@.map_values(|i: usize| i as int);
    let mut list: Vec<String> = Vec::new();
    let mut i: usize = 0;
    while i < at.len()
        invariant
            i <= at@.len(),
            indices == at@.map_values(|i: usize| i as int),
            lists_all(indices, found@.len() as int),
            list@.len() == i,
            forall|j: int| 0 <= j < i ==> (#[trigger] list@[j])@ == found@[indices[j]]@,
        decreases at.len() - i,
    {
        let slot: usize = at[i];
        assert(indices[i as int] == slot as int);
        list.push(found[slot].clone());
        i = i + 1;
    }
    proof {
        let from = found.deep_view();
        let all = list.deep_view();
        lemma_arranged(from, indices);
        assert(all =~= arranged(from, indices));
        let stamps = arranged(stamps_of(times@, found@), indices);
        assert forall|i: int, j: int| 0 <= i < j < all.len() implies text::text_before(
            #[trigger] all[i],
            #[trigger] all[j],
        ) by {
            assert(stamps[i] == (0u64, all[i]) && stamps[j] == (0u64, all[j]));
            assert(all[i] != all[j]);
            lemma_outranks_total(Rank { key: 0, at: 0, id: all[i] }, Rank { key: 0, at: 0, id: all[j] });
        }
    }
    list
}

/// Of the same texts there is one ascending order.
pub proof fn law_alphabetical_is_one_order(u: Seq<Seq<char>>, w: Seq<Seq<char>>)
    requires
        u.no_duplicates(),
        w.no_duplicates(),
        u.to_set() == w.to_set(),
        alphabetical(u),
        alphabetical(w),
    ensures
        u == w,
{
    let at = |id: Seq<char>| 0u64;
    assert forall|i: int, j: int| 0 <= i < j < u.len() implies !text::text_before(
        stamped(u, at)[j].1,
        stamped(u, at)[i].1,
    ) by {
        assert(text::text_before(u[i], u[j]));
        lemma_outranks_total(Rank { key: 0, at: 0, id: u[i] }, Rank { key: 0, at: 0, id: u[j] });
    }
    assert forall|i: int, j: int| 0 <= i < j < w.len() implies !text::text_before(
        stamped(w, at)[j].1,
        stamped(w, at)[i].1,
    ) by {
        assert(text::text_before(w[i], w[j]));
        lemma_outranks_total(Rank { key: 0, at: 0, id: w[i] }, Rank { key: 0, at: 0, id: w[j] });
    }
    assert(newest_first(stamped(u, at)));
    assert(newest_first(stamped(w, at)));
    law_newest_first_is_one_order(u, w, at);
}

/// Ids with their times.
pub open spec fn stamped(ids: Seq<Seq<char>>, at: spec_fn(Seq<char>) -> u64) -> Seq<(u64, Seq<char>)> {
    ids.map_values(|id: Seq<char>| (at(id), id))
}

/// Of the same ids with the same times there is one newest-first order.
pub proof fn law_newest_first_is_one_order(u: Seq<Seq<char>>, w: Seq<Seq<char>>, at: spec_fn(Seq<char>) -> u64)
    requires
        u.no_duplicates(),
        w.no_duplicates(),
        u.to_set() == w.to_set(),
        newest_first(stamped(u, at)),
        newest_first(stamped(w, at)),
    ensures
        u == w,
    decreases u.len(),
{
    if u.len() == 0 {
        if w.len() > 0 {
            assert(w.to_set().contains(w[0]));
            assert(u.contains(w[0]));
        }
        assert(u =~= w);
    } else {
        let su = stamped(u, at);
        let sw = stamped(w, at);
        assert(u.to_set().contains(u[0]));
        assert(w.contains(u[0]));
        let j = choose|j: int| 0 <= j < w.len() && w[j] == u[0];
        assert(w.to_set().contains(w[0]));
        assert(u.contains(w[0]));
        let k = choose|k: int| 0 <= k < u.len() && u[k] == w[0];
        if u[0] != w[0] {
            assert(j > 0 && k > 0);
            assert(sw[0] == (at(w[0]), w[0]) && sw[j] == (at(u[0]), u[0]));
            assert(su[0] == (at(u[0]), u[0]) && su[k] == (at(w[0]), w[0]));
            lemma_outranks_total(
                Rank { key: 0, at: at(u[0]), id: u[0] },
                Rank { key: 0, at: at(w[0]), id: w[0] },
            );
            assert(false);
        }
        let x = u.drop_first();
        let y = w.drop_first();
        assert forall|id: Seq<char>| x.to_set().contains(id) == y.to_set().contains(id) by {
            lemma_rest(u, id);
            lemma_rest(w, id);
            assert(u.to_set().contains(id) == w.to_set().contains(id));
        }
        assert(x.to_set() =~= y.to_set());
        assert forall|p: int| 0 <= p < x.len() implies #[trigger] stamped(x, at)[p] == su[p + 1] by {}
        assert forall|p: int| 0 <= p < y.len() implies #[trigger] stamped(y, at)[p] == sw[p + 1] by {}
        law_newest_first_is_one_order(x, y, at);
        assert(u =~= seq![u[0]] + x);
        assert(w =~= seq![w[0]] + y);
    }
}

/// Without its first element a list of distinct elements holds the others.
proof fn lemma_rest(u: Seq<Seq<char>>, id: Seq<char>)
    requires
        u.len() > 0,
        u.no_duplicates(),
    ensures
        u.drop_first().no_duplicates(),
        u.drop_first().to_set().contains(id) <==> u.to_set().contains(id) && id != u[0],
{
    let x = u.drop_first();
    if x.contains(id) {
        let i = choose|i: int| 0 <= i < x.len() && x[i] == id;
        assert(u[i + 1] == id);
    }
    if u.contains(id) && id != u[0] {
        let i = choose|i: int| 0 <= i < u.len() && u[i] == id;
        assert(x[i - 1] == id);
    }
}

/// Filtering distinct items keeps them distinct, and keeps exactly those that pass.
pub proof fn lemma_filtered<T>(items: Seq<T>, keep: spec_fn(T) -> bool)
    ensures
        items.no_duplicates() ==> items.filter(keep).no_duplicates(),
        items.filter(keep).to_set() == items.to_set().filter(keep),
        items.filter(keep).len() <= items.len(),
    decreases items.len(),
{
    reveal(Seq::filter);
    if items.len() == 0 {
        assert(items.filter(keep).to_set() =~= items.to_set().filter(keep));
    } else {
        let shorter = items.drop_last();
        let last = items.last();
        lemma_filtered(shorter, keep);
        let before = shorter.filter(keep);
        let after = items.filter(keep);
        assert forall|x: T| after.to_set().contains(x) <==> items.to_set().filter(keep).contains(x) by {
            assert(before.contains(x) <==> shorter.contains(x) && keep(x)) by {
                assert(before.to_set().contains(x) <==> shorter.to_set().filter(keep).contains(x));
            }
            if items.contains(x) {
                let i = choose|i: int| 0 <= i < items.len() && items[i] == x;
                if i < shorter.len() {
                    assert(shorter[i] == x);
                }
            }
            if shorter.contains(x) {
                let i = choose|i: int| 0 <= i < shorter.len() && shorter[i] == x;
                assert(items[i] == x);
            }
            if before.contains(x) {
                let i = choose|i: int| 0 <= i < before.len() && before[i] == x;
                assert(after[i] == x);
            }
            if after.contains(x) {
                let i = choose|i: int| 0 <= i < after.len() && after[i] == x;
                if i < before.len() {
                    assert(before[i] == x);
                }
            }
            if keep(last) {
                assert(after[after.len() - 1] == last);
            }
            assert(items[items.len() - 1] == last);
        }
        assert(after.to_set() =~= items.to_set().filter(keep));
        if items.no_duplicates() {
            assert(shorter.no_duplicates()) by {
                assert forall|i: int, j: int| 0 <= i < shorter.len() && 0 <= j < shorter.len() && i != j implies
                    shorter[i] != shorter[j] by {
                    assert(items[i] != items[j]);
                }
            }
            assert(!before.contains(last)) by {
                if before.contains(last) {
                    assert(before.to_set().contains(last));
                    assert(shorter.contains(last));
                    let i = choose|i: int| 0 <= i < shorter.len() && shorter[i] == last;
                    assert(items[i] == items[items.len() - 1]);
                }
            }
            assert forall|i: int, j: int| 0 <= i < after.len() && 0 <= j < after.len() && i != j implies after[i]
                != after[j] by {
                if i < before.len() {
                    assert(before[i] == after[i]);
                    assert(before.contains(after[i]));
                }
                if j < before.len() {
                    assert(before[j] == after[j]);
                    assert(before.contains(after[j]));
                }
            }
        }
    }
}

/// A list of distinct texts with one more that it did not hold.
pub proof fn lemma_one_more(list: Seq<Seq<char>>, new: Seq<char>)
    requires
        list.no_duplicates(),
        !list.contains(new),
    ensures
        list.push(new).no_duplicates(),
        forall|u: Seq<char>| #[trigger] list.push(new).contains(u) <==> list.contains(u) || u == new,
{
    let longer = list.push(new);
    let n = list.len() as int;
    assert(longer[n] == new);
    assert forall|u: Seq<char>| #[trigger] longer.contains(u) <==> list.contains(u) || u == new by {
        if longer.contains(u) {
            let i = choose|i: int| 0 <= i < longer.len() && longer[i] == u;
            if i < n {
                assert(list[i] == u);
            }
        }
        if list.contains(u) {
            let i = choose|i: int| 0 <= i < list.len() && list[i] == u;
            assert(longer[i] == u);
        }
    }
    assert forall|i: int, j: int| 0 <= i < longer.len() && 0 <= j < longer.len() && i != j implies longer[i]
        != longer[j] by {
        if i < n {
            assert(list.contains(list[i]));
        }
        if j < n {
            assert(list.contains(list[j]));
        }
    }
}

/// One more item to filter.
pub proof fn lemma_filter_next<T>(items: Seq<T>, keep: spec_fn(T) -> bool, i: int)
    requires
        0 <= i < items.len(),
    ensures
        items.take(i + 1).filter(keep) == (if keep(items[i]) {
            items.take(i).filter(keep).push(items[i])
        } else {
            items.take(i).filter(keep)
        }),
{
    reveal(Seq::filter);
    assert(items.take(i + 1).drop_last() =~= items.take(i));
}

/// Nothing to filter yet.
pub proof fn lemma_filter_none<T>(items: Seq<T>, keep: spec_fn(T) -> bool)
    ensures
        items.take(0).filter(keep) == Seq::<T>::empty(),
        items.take(items.len() as int) == items,
{
    reveal(Seq::filter);
    assert(items.take(0) =~= Seq::<T>::empty());
    assert(items.take(items.len() as int) =~= items);
}

/// An ascending list is read from the front to the back of a dictionary: of two texts in it the earlier is a proper
/// beginning of the later, or has the smaller byte at the first place at which they differ.
pub proof fn law_alphabetical_is_as_in_a_dictionary(list: Seq<Seq<char>>, i: int, j: int)
    requires
        alphabetical(list),
        0 <= i < j < list.len(),
    ensures
        ({
            let a = utf8::encode_utf8(list[i]);
            let b = utf8::encode_utf8(list[j]);
            exists|k: int| #[trigger]
                text::differ_at(a, b, k) && (if k < a.len() && k < b.len() {
                    a[k] < b[k]
                } else {
                    k == a.len() && k < b.len()
                })
        }),
{
    assert(text::text_before(list[i], list[j]));
    text::law_texts_sort_as_in_a_dictionary(utf8::encode_utf8(list[i]), utf8::encode_utf8(list[j]));
}

} // verus!
