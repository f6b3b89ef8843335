//! Text: exact comparison of strings, and the byte order that ranks them.
use vstd::prelude::*;
use vstd::utf8;

verus! {

/// `a` sorts strictly before `b` when compared byte by byte; a proper prefix sorts first.
pub open spec fn bytes_before(a: Seq<u8>, b: Seq<u8>) -> bool
    decreases a.len(),
{
    if b.len() == 0 {
        false
    } else if a.len() == 0 {
        true
    } else if a[0] != b[0] {
        a[0] < b[0]
    } else {
        bytes_before(a.skip(1), b.skip(1))
    }
}

/// The order of strings: that of their UTF-8 bytes.
pub open spec fn text_before(a: Seq<char>, b: Seq<char>) -> bool {
    bytes_before(utf8::encode_utf8(a), utf8::encode_utf8(b))
}

/// Two strings with the same UTF-8 bytes are the same string.
pub proof fn lemma_utf8_injective(a: Seq<char>, b: Seq<char>)
    requires
        utf8::encode_utf8(a) == utf8::encode_utf8(b),
    ensures
        a == b,
{
    utf8::encode_utf8_decode_utf8(a);
    utf8::encode_utf8_decode_utf8(b);
}

/// Nothing sorts before itself.
pub proof fn lemma_bytes_irreflexive(a: Seq<u8>)
    ensures
        !bytes_before(a, a),
    decreases a.len(),
{
    if a.len() > 0 {
        lemma_bytes_irreflexive(a.skip(1));
    }
}

/// Of two different byte strings exactly one sorts first.
pub proof fn lemma_bytes_total(a: Seq<u8>, b: Seq<u8>)
    requires
        a != b,
    ensures
        bytes_before(a, b) != bytes_before(b, a),
    decreases a.len(),
{
    if a.len() == 0 || b.len() == 0 {
        if a.len() == b.len() {
            assert(a =~= b);
        }
    } else if a[0] == b[0] {
        if a.skip(1) == b.skip(1) {
            assert(a =~= seq![a[0]] + a.skip(1));
            assert(b =~= seq![b[0]] + b.skip(1));
        }
        lemma_bytes_total(a.skip(1), b.skip(1));
    }
}

/// The byte order is transitive.
pub proof fn lemma_bytes_transitive(a: Seq<u8>, b: Seq<u8>, c: Seq<u8>)
    requires
        bytes_before(a, b),
        bytes_before(b, c),
    ensures
        bytes_before(a, c),
    decreases a.len(),
{
    if a.len() > 0 && b.len() > 0 && c.len() > 0 && a[0] == b[0] && b[0] == c[0] {
        lemma_bytes_transitive(a.skip(1), b.skip(1), c.skip(1));
    }
}

/// The characters of a string.
pub fn chars_of(s: &str) -> (chars: Vec<char>)
    ensures
        chars@ == s@,
{
    let mut chars: Vec<char> = Vec::new();
    for c in it: s.chars()
        invariant
            it.seq() == s@,
            chars@ == s@.take(it.index() as int),
    {
        chars.push(c);
        assert(s@.take(it.index() + 1) =~= s@.take(it.index() as int).push(c));
    }
    assert(s@.take(s@.len() as int) =~= s@);
    chars
}

/// Do two strings hold the same text?
pub fn same_text(a: &str, b: &str) -> (same: bool)
    ensures
        same == (a@ == b@),
{
    let x = a.as_bytes();
    let y = b.as_bytes();
    if x.len() != y.len() {
        return false;
    }
    let mut i: usize = 0;
    while i < x.len()
        invariant
            i <= x.len(),
            x.len() == y.len(),
            x@ == utf8::encode_utf8(a@),
            y@ == utf8::encode_utf8(b@),
            forall|j: int| 0 <= j < i ==> x@[j] == y@[j],
        decreases x.len() - i,
    {
        if x[i] != y[i] {
            return false;
        }
        i = i + 1;
    }
    proof {
        assert(x@ =~= y@);
        lemma_utf8_injective(a@, b@);
    }
    true
}

/// Is `s` one of the texts?
pub fn contains(list: &Vec<String>, s: &str) -> (found: bool)
    ensures
        found == list.deep_view().contains(s@),
{
    let mut i: usize = 0;
    while i < list.len()
        invariant
            i <= list@.len(),
            forall|j: int| 0 <= j < i ==> list.deep_view()[j] != s@,
        decreases list.len() - i,
    {
        assert(list.deep_view()[i as int] == list@[i as int]@);
        if same_text(&list[i], s) {
            return true;
        }
        i = i + 1;
    }
    false
}

/// Does `a` sort strictly before `b`?
pub fn sorts_before(a: &str, b: &str) -> (before: bool)
    ensures
        before == text_before(a@, b@),
{
    let x = a.as_bytes();
    let y = b.as_bytes();
    let mut i: usize = 0;
    proof {
        assert(x@.skip(0) =~= x@);
        assert(y@.skip(0) =~= y@);
    }
    while i < x.len() && i < y.len()
        invariant
            i <= x.len(),
            i <= y.len(),
            text_before(a@, b@) == bytes_before(x@.skip(i as int), y@.skip(i as int)),
        decreases x.len() - i,
    {
        proof {
            assert(x@.skip(i as int)[0] == x@[i as int]);
            assert(y@.skip(i as int)[0] == y@[i as int]);
            assert(x@.skip(i as int).skip(1) =~= x@.skip(i + 1));
            assert(y@.skip(i as int).skip(1) =~= y@.skip(i + 1));
        }
        if x[i] != y[i] {
            return x[i] < y[i];
        }
        i = i + 1;
    }
    i < y.len()
}

/// The order of texts is that of a dictionary over their bytes: one comes before another where it is a proper
/// beginning of it, or where its byte is the smaller at the first place at which they differ.
pub proof fn law_texts_sort_as_in_a_dictionary(a: Seq<u8>, b: Seq<u8>)
    ensures
        bytes_before(a, b) <==> exists|k: int| #[trigger]
            differ_at(a, b, k) && (if k < a.len() && k < b.len() {
                a[k] < b[k]
            } else {
                k == a.len() && k < b.len()
            }),
    decreases a.len(),
{
    if a.len() > 0 && b.len() > 0 && a[0] == b[0] {
        let x = a.skip(1);
        let y = b.skip(1);
        law_texts_sort_as_in_a_dictionary(x, y);
        if bytes_before(a, b) {
            let k = choose|k: int| #[trigger]
                differ_at(x, y, k) && (if k < x.len() && k < y.len() {
                    x[k] < y[k]
                } else {
                    k == x.len() && k < y.len()
                });
            assert(differ_at(a, b, k + 1)) by {
                assert forall|j: int| 0 <= j < k + 1 implies #[trigger] a[j] == b[j] by {
                    if j > 0 {
                        assert(x[j - 1] == y[j - 1]);
                    }
                }
            }
        }
        if exists|k: int| #[trigger]
            differ_at(a, b, k) && (if k < a.len() && k < b.len() {
                a[k] < b[k]
            } else {
                k == a.len() && k < b.len()
            }) {
            let k = choose|k: int| #[trigger]
                differ_at(a, b, k) && (if k < a.len() && k < b.len() {
                    a[k] < b[k]
                } else {
                    k == a.len() && k < b.len()
                });
            assert(k > 0);
            assert(differ_at(x, y, k - 1)) by {
                assert forall|j: int| 0 <= j < k - 1 implies #[trigger] x[j] == y[j] by {
                    assert(a[j + 1] == b[j + 1]);
                }
            }
        }
    } else if a.len() == 0 || b.len() == 0 {
        if b.len() > 0 {
            assert(differ_at(a, b, 0));
        }
    } else {
        if bytes_before(a, b) {
            assert(differ_at(a, b, 0));
        }
        if exists|k: int| #[trigger]
            differ_at(a, b, k) && (if k < a.len() && k < b.len() {
                a[k] < b[k]
            } else {
                k == a.len() && k < b.len()
            }) {
            let k = choose|k: int| #[trigger]
                differ_at(a, b, k) && (if k < a.len() && k < b.len() {
                    a[k] < b[k]
                } else {
                    k == a.len() && k < b.len()
                });
            if k > 0 {
                assert(a[0] == b[0]);
            }
        }
    }
}

/// Two byte strings agree up to the place `k`.
pub open spec fn differ_at(a: Seq<u8>, b: Seq<u8>, k: int) -> bool {
    0 <= k <= a.len() && k <= b.len() && forall|j: int| 0 <= j < k ==> #[trigger] a[j] == b[j]
}

} // verus!
