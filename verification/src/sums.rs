//! Sums over finite sets.
use vstd::prelude::*;

verus! {

/// The sum of `f` over a finite set.
pub open spec fn sum_over<A>(s: Set<A>, f: spec_fn(A) -> int) -> int
    decreases s.len(),
{
    if s.finite() && s.len() > 0 {
        let x = s.choose();
        f(x) + sum_over(s.remove(x), f)
    } else {
        0
    }
}

/// One more member adds its value.
pub proof fn lemma_sum_insert<A>(s: Set<A>, f: spec_fn(A) -> int, x: A)
    requires
        s.finite(),
        !s.contains(x),
    ensures
        sum_over(s.insert(x), f) == f(x) + sum_over(s, f),
    decreases s.len(),
{
    let t = s.insert(x);
    assert(t.len() > 0);
    let y = t.choose();
    if y == x {
        assert(t.remove(x) =~= s);
    } else {
        assert(t.contains(y));
        let rest = s.remove(y);
        assert(t.remove(y) =~= rest.insert(x));
        lemma_sum_insert(rest, f, x);
        lemma_sum_insert(rest, f, y);
        assert(rest.insert(y) =~= s);
    }
}

/// Members with the value zero may be left out.
pub proof fn lemma_sum_nonzero<A>(s: Set<A>, t: Set<A>, f: spec_fn(A) -> int)
    requires
        s.finite(),
        t.subset_of(s),
        forall|x: A| s.contains(x) && !t.contains(x) ==> #[trigger] f(x) == 0,
    ensures
        sum_over(s, f) == sum_over(t, f),
    decreases s.len(),
{
    if s =~= t {
    } else {
        let x = choose|x: A| s.contains(x) && !t.contains(x);
        let rest = s.remove(x);
        lemma_sum_nonzero(rest, t, f);
        lemma_sum_insert(rest, f, x);
        assert(rest.insert(x) =~= s);
    }
}

/// Equal values give equal sums.
pub proof fn lemma_sum_same<A>(s: Set<A>, f: spec_fn(A) -> int, g: spec_fn(A) -> int)
    requires
        s.finite(),
        forall|x: A| s.contains(x) ==> #[trigger] f(x) == g(x),
    ensures
        sum_over(s, f) == sum_over(s, g),
    decreases s.len(),
{
    if s.len() > 0 {
        let x = s.choose();
        lemma_sum_same(s.remove(x), f, g);
    }
}

/// The sum of `f` over a list, item by item.
pub open spec fn added_up<A>(list: Seq<A>, f: spec_fn(A) -> int) -> int
    decreases list.len(),
{
    if list.len() == 0 {
        0
    } else {
        added_up(list.drop_last(), f) + f(list.last())
    }
}

/// A set may be summed along any list of its members.
pub proof fn lemma_added_up<A>(list: Seq<A>, f: spec_fn(A) -> int)
    requires
        list.no_duplicates(),
    ensures
        sum_over(list.to_set(), f) == added_up(list, f),
        list.to_set().finite(),
    decreases list.len(),
{
    if list.len() == 0 {
        assert(list.to_set() =~= Set::empty());
    } else {
        let shorter = list.drop_last();
        let last = list.last();
        lemma_added_up(shorter, f);
        assert(list =~= shorter.push(last));
        assert(!shorter.contains(last)) by {
            if shorter.contains(last) {
                let i = choose|i: int| 0 <= i < shorter.len() && shorter[i] == last;
                assert(list[i] == list[list.len() - 1]);
            }
        }
        assert forall|x: A| list.to_set().contains(x) <==> shorter.to_set().insert(last).contains(x) by {
            if list.contains(x) {
                let i = choose|i: int| 0 <= i < list.len() && list[i] == x;
                if i < shorter.len() {
                    assert(shorter[i] == x);
                }
            }
            if shorter.contains(x) {
                let i = choose|i: int| 0 <= i < shorter.len() && shorter[i] == x;
                assert(list[i] == x);
            }
            assert(list[list.len() - 1] == last);
        }
        assert(list.to_set() =~= shorter.to_set().insert(last));
        lemma_sum_insert(shorter.to_set(), f, last);
    }
}

/// Equal values item by item give equal sums.
pub proof fn lemma_added_up_same<A, B>(list: Seq<A>, f: spec_fn(A) -> int, other: Seq<B>, g: spec_fn(B) -> int)
    requires
        list.len() == other.len(),
        forall|i: int| 0 <= i < list.len() ==> f(#[trigger] list[i]) == g(other[i]),
    ensures
        added_up(list, f) == added_up(other, g),
    decreases list.len(),
{
    if list.len() > 0 {
        let a = list.drop_last();
        let b = other.drop_last();
        assert forall|i: int| 0 <= i < a.len() implies f(#[trigger] a[i]) == g(b[i]) by {
            assert(a[i] == list[i]);
        }
        lemma_added_up_same(a, f, b, g);
        assert(f(list[list.len() - 1]) == g(other[list.len() - 1]));
    }
}

/// Taking an item out takes its value out.
proof fn lemma_added_up_remove<A>(list: Seq<A>, f: spec_fn(A) -> int, k: int)
    requires
        0 <= k < list.len(),
    ensures
        added_up(list, f) == added_up(list.remove(k), f) + f(list[k]),
    decreases list.len(),
{
    if k == list.len() - 1 {
        assert(list.remove(k) =~= list.drop_last());
    } else {
        let shorter = list.drop_last();
        lemma_added_up_remove(shorter, f, k);
        assert(list.remove(k).drop_last() =~= shorter.remove(k));
        assert(list.remove(k).last() == list.last());
    }
}

/// A sum does not depend on the order of the items.
pub proof fn lemma_added_up_permuted<A>(a: Seq<A>, b: Seq<A>, f: spec_fn(A) -> int)
    requires
        a.to_multiset() == b.to_multiset(),
    ensures
        added_up(a, f) == added_up(b, f),
        a.len() == b.len(),
    decreases a.len(),
{
    a.to_multiset_ensures();
    b.to_multiset_ensures();
    if a.len() > 0 {
        let last = a.last();
        let n = a.len() - 1;
        assert(a.contains(last)) by {
            assert(a[n] == last);
        }
        assert(b.contains(last)) by {
            assert(a.to_multiset().count(last) > 0);
            assert(b.to_multiset().count(last) > 0);
        }
        let k = choose|k: int| 0 <= k < b.len() && b[k] == last;
        assert(a.remove(n) =~= a.drop_last());
        assert(a.remove(n).to_multiset() =~= b.remove(k).to_multiset());
        lemma_added_up_permuted(a.drop_last(), b.remove(k), f);
        lemma_added_up_remove(b, f, k);
    }
}

/// Values that are not negative add up to no less along a longer list.
pub proof fn lemma_added_up_grows<A>(list: Seq<A>, f: spec_fn(A) -> int, k: int)
    requires
        0 <= k <= list.len(),
        forall|i: int| 0 <= i < list.len() ==> f(#[trigger] list[i]) >= 0,
    ensures
        0 <= added_up(list.take(k), f) <= added_up(list, f),
    decreases list.len(),
{
    if k < list.len() {
        let shorter = list.drop_last();
        assert forall|i: int| 0 <= i < shorter.len() implies f(#[trigger] shorter[i]) >= 0 by {
            assert(shorter[i] == list[i]);
        }
        lemma_added_up_grows(shorter, f, k);
        assert(shorter.take(k) =~= list.take(k));
        assert(f(list[list.len() - 1]) >= 0);
    } else {
        assert(list.take(k) =~= list);
        if list.len() > 0 {
            let shorter = list.drop_last();
            assert forall|i: int| 0 <= i < shorter.len() implies f(#[trigger] shorter[i]) >= 0 by {
                assert(shorter[i] == list[i]);
            }
            lemma_added_up_grows(shorter, f, shorter.len() as int);
            assert(shorter.take(shorter.len() as int) =~= shorter);
            assert(f(list[list.len() - 1]) >= 0);
        }
    }
}

} // verus!
