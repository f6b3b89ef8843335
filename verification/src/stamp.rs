//! Stamps: when a record was made and which one it is. They order any two records, on every node alike.
use crate::text;
use vstd::prelude::*;
use vstd::utf8;

verus! {

/// The time `at` comes before the time `at2`, or they are one and `id` sorts before `id2`.
pub open spec fn before(at: u64, id: Seq<char>, at2: u64, id2: Seq<char>) -> bool {
    at < at2 || (at == at2 && text::text_before(id, id2))
}

/// Of two stamps exactly one comes first, unless they are the same.
pub proof fn lemma_total(at: u64, id: Seq<char>, at2: u64, id2: Seq<char>)
    ensures
        before(at, id, at2, id2) ==> !before(at2, id2, at, id),
        id != id2 ==> before(at, id, at2, id2) || before(at2, id2, at, id),
        !before(at, id, at, id),
{
    let x = utf8::encode_utf8(id);
    let y = utf8::encode_utf8(id2);
    text::lemma_bytes_irreflexive(x);
    if x == y {
        text::lemma_utf8_injective(id, id2);
    } else {
        text::lemma_bytes_total(x, y);
    }
}

/// What comes before something that comes before a third comes before the third.
pub proof fn lemma_transitive(at: u64, id: Seq<char>, at2: u64, id2: Seq<char>, at3: u64, id3: Seq<char>)
    requires
        before(at, id, at2, id2),
        before(at2, id2, at3, id3),
    ensures
        before(at, id, at3, id3),
{
    if at == at2 && at2 == at3 {
        text::lemma_bytes_transitive(utf8::encode_utf8(id), utf8::encode_utf8(id2), utf8::encode_utf8(id3));
    }
}

/// How three stamps, two of them with different ids, stand to each other.
pub proof fn lemma_three(at: u64, id: Seq<char>, at2: u64, id2: Seq<char>, at3: u64, id3: Seq<char>)
    ensures
        before(at, id, at2, id2) ==> !before(at2, id2, at, id),
        id != id2 ==> before(at, id, at2, id2) || before(at2, id2, at, id),
        before(at, id, at2, id2) && before(at2, id2, at3, id3) ==> before(at, id, at3, id3),
        before(at2, id2, at, id) && before(at, id, at3, id3) ==> before(at2, id2, at3, id3),
        before(at3, id3, at, id) && before(at, id, at2, id2) ==> before(at3, id3, at2, id2),
        before(at3, id3, at2, id2) && before(at2, id2, at, id) ==> before(at3, id3, at, id),
{
    lemma_total(at, id, at2, id2);
    if before(at, id, at2, id2) && before(at2, id2, at3, id3) {
        lemma_transitive(at, id, at2, id2, at3, id3);
    }
    if before(at2, id2, at, id) && before(at, id, at3, id3) {
        lemma_transitive(at2, id2, at, id, at3, id3);
    }
    if before(at3, id3, at, id) && before(at, id, at2, id2) {
        lemma_transitive(at3, id3, at, id, at2, id2);
    }
    if before(at3, id3, at2, id2) && before(at2, id2, at, id) {
        lemma_transitive(at3, id3, at2, id2, at, id);
    }
}

/// Does the first stamp come before the second?
pub fn precedes(at: u64, id: &str, at2: u64, id2: &str) -> (yes: bool)
    ensures
        yes == before(at, id@, at2, id2@),
{
    at < at2 || (at == at2 && text::sorts_before(id, id2))
}

} // verus!
