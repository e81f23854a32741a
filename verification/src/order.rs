//! The lexicographic order on byte strings, and sorting by it.
//!
//! This is the order in which the records of a bucket are written: byte by
//! byte, a proper prefix before any of its extensions.

use vstd::prelude::*;
use vstd::relations::{sorted_by, total_ordering};
use vstd::seq_lib::lemma_sorted_unique;
use crate::bytes::rows;

verus! {

/// `a` comes no later than `b` in lexicographic order.
pub open spec fn lex_le(a: Seq<u8>, b: Seq<u8>) -> bool
    decreases a.len(),
{
    if a.len() == 0 {
        true
    } else if b.len() == 0 {
        false
    } else if a[0] != b[0] {
        a[0] < b[0]
    } else {
        lex_le(a.drop_first(), b.drop_first())
    }
}

/// The lexicographic order as a relation.
pub open spec fn lex_order() -> spec_fn(Seq<u8>, Seq<u8>) -> bool {
    |a: Seq<u8>, b: Seq<u8>| lex_le(a, b)
}

/// The byte strings of `texts` in lexicographic order.
pub open spec fn sorted_texts(texts: Seq<Seq<u8>>) -> Seq<Seq<u8>> {
    texts.sort_by(lex_order())
}

pub proof fn lemma_lex_reflexive(a: Seq<u8>)
    ensures
        lex_le(a, a),
    decreases a.len(),
{
    if a.len() > 0 {
        lemma_lex_reflexive(a.drop_first());
    }
}

pub proof fn lemma_lex_antisymmetric(a: Seq<u8>, b: Seq<u8>)
    requires
        lex_le(a, b),
        lex_le(b, a),
    ensures
        a == b,
    decreases a.len(),
{
    if a.len() == 0 || b.len() == 0 {
        assert(a =~= b);
    } else {
        lemma_lex_antisymmetric(a.drop_first(), b.drop_first());
        assert(a =~= seq![a[0]] + a.drop_first());
        assert(b =~= seq![b[0]] + b.drop_first());
    }
}

pub proof fn lemma_lex_transitive(a: Seq<u8>, b: Seq<u8>, c: Seq<u8>)
    requires
        lex_le(a, b),
        lex_le(b, c),
    ensures
        lex_le(a, c),
    decreases a.len(),
{
    if a.len() > 0 && b.len() > 0 && c.len() > 0 && a[0] == b[0] && b[0] == c[0] {
        lemma_lex_transitive(a.drop_first(), b.drop_first(), c.drop_first());
    }
}

pub proof fn lemma_lex_total(a: Seq<u8>, b: Seq<u8>)
    ensures
        lex_le(a, b) || lex_le(b, a),
    decreases a.len(),
{
    if a.len() > 0 && b.len() > 0 && a[0] == b[0] {
        lemma_lex_total(a.drop_first(), b.drop_first());
    }
}

/// The lexicographic order is a total order.
pub proof fn lemma_lex_total_ordering()
    ensures
        total_ordering(lex_order()),
{
    let r = lex_order();
    assert forall|x: Seq<u8>| #[trigger] r(x, x) by {
        lemma_lex_reflexive(x);
    }
    assert forall|x: Seq<u8>, y: Seq<u8>| #[trigger] r(x, y) && #[trigger] r(y, x) implies x
        == y by {
        lemma_lex_antisymmetric(x, y);
    }
    assert forall|x: Seq<u8>, y: Seq<u8>, z: Seq<u8>| #[trigger] r(x, y) && #[trigger] r(
        y,
        z,
    ) implies r(x, z) by {
        lemma_lex_transitive(x, y, z);
    }
    assert forall|x: Seq<u8>, y: Seq<u8>| #[trigger] r(x, y) || #[trigger] r(y, x) by {
        lemma_lex_total(x, y);
    }
}

/// Sorting depends on which texts there are and how often, not on their
/// order: the only sorted arrangement of a collection of texts is its
/// `sorted_texts`.
pub proof fn lemma_sorted_texts_unique(texts: Seq<Seq<u8>>, arranged: Seq<Seq<u8>>)
    requires
        sorted_by(arranged, lex_order()),
        arranged.to_multiset() == texts.to_multiset(),
    ensures
        arranged == sorted_texts(texts),
{
    lemma_lex_total_ordering();
    texts.lemma_sort_by_ensures(lex_order());
    lemma_sorted_unique(arranged, sorted_texts(texts), lex_order());
}

/// Sorting neither adds nor drops a text.
pub proof fn lemma_sorted_members(texts: Seq<Seq<u8>>)
    ensures
        sorted_texts(texts).len() == texts.len(),
        forall|k: int|
            0 <= k < texts.len() ==> texts.contains(#[trigger] sorted_texts(texts)[k]),
        forall|j: int| 0 <= j < texts.len() ==> sorted_texts(texts).contains(#[trigger] texts[j]),
{
    broadcast use vstd::seq_lib::group_to_multiset_ensures;

    let s = sorted_texts(texts);
    lemma_lex_total_ordering();
    texts.lemma_sort_by_ensures(lex_order());
    assert(s.to_multiset().len() == s.len());
    assert(texts.to_multiset().len() == texts.len());
    assert forall|k: int| 0 <= k < texts.len() implies texts.contains(#[trigger] s[k]) by {
        assert(s.to_multiset().count(s[k]) > 0);
    }
    assert forall|j: int| 0 <= j < texts.len() implies s.contains(#[trigger] texts[j]) by {
        assert(texts.to_multiset().count(texts[j]) > 0);
    }
}

/// Tells whether `a` comes no later than `b` in lexicographic order.
pub fn bytes_le(a: &[u8], b: &[u8]) -> (le: bool)
    ensures
        le == lex_le(a@, b@),
{
    let mut i: usize = 0;
    proof {
        assert(a@.skip(0) =~= a@);
        assert(b@.skip(0) =~= b@);
    }
    while i < a.len() && i < b.len()
        invariant
            i <= a.len(),
            i <= b.len(),
            lex_le(a@, b@) == lex_le(a@.skip(i as int), b@.skip(i as int)),
        decreases a.len() - i,
    {
        proof {
            assert(a@.skip(i as int).drop_first() =~= a@.skip(i + 1));
            assert(b@.skip(i as int).drop_first() =~= b@.skip(i + 1));
            assert(a@.skip(i as int)[0] == a@[i as int]);
            assert(b@.skip(i as int)[0] == b@[i as int]);
        }
        if a[i] != b[i] {
            return a[i] < b[i];
        }
        i = i + 1;
    }
    i == a.len()
}

/// Sorts byte strings into lexicographic order.
pub fn sort_texts(texts: Vec<Vec<u8>>) -> (sorted: Vec<Vec<u8>>)
    ensures
        rows(sorted@) == sorted_texts(rows(texts@)),
{
    let mut rest = texts;
    let mut sorted: Vec<Vec<u8>> = Vec::new();
    proof {
        lemma_lex_total_ordering();
        assert(rows(sorted@) + rows(rest@) =~= rows(texts@));
    }
    while rest.len() > 0
        invariant
            total_ordering(lex_order()),
            sorted_by(rows(sorted@), lex_order()),
            (rows(sorted@) + rows(rest@)).to_multiset() == rows(texts@).to_multiset(),
        decreases rest.len(),
    {
        let ghost rest_before = rows(rest@);
        let ghost sorted_before = rows(sorted@);
        let next = match rest.pop() {
            Some(text) => text,
            None => Vec::new(),
        };
        proof {
            assert(rows(rest@).push(next@) =~= rest_before);
        }
        let mut at: usize = 0;
        while at < sorted.len() && bytes_le(sorted[at].as_slice(), next.as_slice())
            invariant
                at <= sorted.len(),
                forall|k: int| 0 <= k < at ==> lex_le(#[trigger] sorted@[k]@, next@),
            decreases sorted.len() - at,
        {
            at = at + 1;
        }
        sorted.insert(at, next);
        proof {
            let r = lex_order();
            let after = rows(sorted@);
            assert(after =~= sorted_before.insert(at as int, next@));
            assert forall|i: int, j: int| 0 <= i < j < after.len() implies #[trigger] r(
                after[i],
                after[j],
            ) by {
                if j < at {
                    assert(r(sorted_before[i], sorted_before[j]));
                } else if j == at {
                    assert(after[i] == sorted_before[i]);
                } else if i == at {
                    assert(after[j] == sorted_before[j - 1]);
                    lemma_lex_total(sorted_before[at as int], next@);
                    if j - 1 > at {
                        assert(r(sorted_before[at as int], sorted_before[j - 1]));
                        lemma_lex_transitive(next@, sorted_before[at as int], sorted_before[j - 1]);
                    }
                } else if i < at {
                    assert(r(sorted_before[i], sorted_before[j - 1]));
                } else {
                    assert(r(sorted_before[i - 1], sorted_before[j - 1]));
                }
            }
            let kept = sorted_before + rows(rest@);
            vstd::seq_lib::to_multiset_insert(kept, at as int, next@);
            vstd::seq_lib::to_multiset_build(kept, next@);
            assert(after + rows(rest@) =~= kept.insert(at as int, next@));
            assert(sorted_before + rest_before =~= kept.push(next@));
        }
    }
    proof {
        assert(rows(sorted@) + rows(rest@) =~= rows(sorted@));
        lemma_sorted_texts_unique(rows(texts@), rows(sorted@));
    }
    sorted
}

} // verus!
