//! Buckets: the records that share one ledger address, and their canonical
//! byte form.
//!
//! A bucket maps each name to one record. Its byte form is the records' text
//! forms in lexicographic order, joined by pipes, so that every node derives
//! the same bytes from the same records whatever order it holds them in.

use vstd::prelude::*;
use crate::bytes::{
    all_free_of, bytes_eq, free_of, join, join_bytes, lemma_split_join, lemma_split_pieces, rows,
    split, split_bytes, PIPE,
};
use crate::order::{
    lemma_lex_total_ordering, lemma_sorted_members, lemma_sorted_texts_unique, lex_order,
    sort_texts, sorted_texts,
};
use crate::record::Record;
use crate::utf8::{lemma_join_valid, lemma_split_valid};
use vstd::utf8::valid_utf8;

verus! {

/// The abstract records of a sequence of records.
pub open spec fn views<R: Record>(entries: Seq<R>) -> Seq<R::V> {
    entries.map_values(|s: R| s@)
}

/// Some record of `e` has the name `name`.
pub open spec fn has_name<R: Record>(e: Seq<R::V>, name: Seq<u8>) -> bool {
    exists|i: int| 0 <= i < e.len() && R::name_of(#[trigger] e[i]) == name
}

/// The position of a record named `name` in `e`.
pub open spec fn index_of<R: Record>(e: Seq<R::V>, name: Seq<u8>) -> int {
    choose|i: int| 0 <= i < e.len() && R::name_of(#[trigger] e[i]) == name
}

/// No two records of `e` share a name.
pub open spec fn names_distinct<R: Record>(e: Seq<R::V>) -> bool {
    forall|i: int, j: int|
        0 <= i < e.len() && 0 <= j < e.len() && i != j ==> R::name_of(#[trigger] e[i])
            != R::name_of(#[trigger] e[j])
}

/// The bucket that holds the records of `e`, each under its name.
pub open spec fn as_map<R: Record>(e: Seq<R::V>) -> Map<Seq<u8>, R::V> {
    Map::new(|k: Seq<u8>| has_name::<R>(e, k), |k: Seq<u8>| e[index_of::<R>(e, k)])
}

/// The bucket that results from storing the records of `records` one after
/// the other, each under its name: of two records with one name the later
/// stays.
pub open spec fn collect<R: Record>(records: Seq<R::V>) -> Map<Seq<u8>, R::V>
    decreases records.len(),
{
    if records.len() == 0 {
        Map::empty()
    } else {
        collect::<R>(records.drop_last()).insert(R::name_of(records.last()), records.last())
    }
}

/// The text forms of the records of `e`, in the order of `e`.
pub open spec fn texts<R: Record>(e: Seq<R::V>) -> Seq<Seq<u8>> {
    e.map_values(|s: R::V| R::text_of(s))
}

/// The byte form of a bucket that holds the records of `e`: their text forms
/// in lexicographic order, joined by pipes.
pub open spec fn bucket_text<R: Record>(e: Seq<R::V>) -> Seq<u8> {
    join(sorted_texts(texts::<R>(e)), PIPE)
}

/// `e` lists the records of the bucket `m`, each once, in some order.
pub open spec fn represents<R: Record>(e: Seq<R::V>, m: Map<Seq<u8>, R::V>) -> bool {
    names_distinct::<R>(e) && as_map::<R>(e) == m
}

/// The byte form of the bucket `m`. It is a function of the bucket alone: the
/// order in which its records are held plays no part
/// (see [`lemma_text_of_listing`]).
pub open spec fn map_text<R: Record>(m: Map<Seq<u8>, R::V>) -> Seq<u8> {
    bucket_text::<R>(choose|e: Seq<R::V>| represents::<R>(e, m))
}

/// Every piece reads as a record.
pub open spec fn all_parse<R: Record>(pieces: Seq<Seq<u8>>) -> bool {
    forall|k: int| 0 <= k < pieces.len() ==> R::read(#[trigger] pieces[k]) is Some
}

/// The records that the pieces read as.
pub open spec fn parsed<R: Record>(pieces: Seq<Seq<u8>>) -> Seq<R::V> {
    pieces.map_values(|p: Seq<u8>| R::read(p)->0)
}

/// The bucket that a byte form stands for: its pipe-separated pieces, each
/// read as a record and stored under its name. Where any piece is no record,
/// the whole is no bucket.
pub open spec fn parse_bucket<R: Record>(text: Seq<u8>) -> Option<Map<Seq<u8>, R::V>> {
    let pieces = split(text, PIPE);
    if all_parse::<R>(pieces) {
        Some(collect::<R>(parsed::<R>(pieces)))
    } else {
        None
    }
}

/// Every record of the bucket is well-formed and stored under its own name.
pub open spec fn bucket_wf<R: Record>(m: Map<Seq<u8>, R::V>) -> bool {
    forall|k: Seq<u8>| #[trigger]
        m.contains_key(k) ==> R::well_formed(m[k]) && R::name_of(m[k]) == k
}

/// In a listing without repeated names, each record is found at its own
/// position.
pub proof fn lemma_index_of<R: Record>(e: Seq<R::V>, i: int)
    requires
        names_distinct::<R>(e),
        0 <= i < e.len(),
    ensures
        index_of::<R>(e, R::name_of(e[i])) == i,
        as_map::<R>(e).contains_key(R::name_of(e[i])),
        as_map::<R>(e)[R::name_of(e[i])] == e[i],
{
    let j = index_of::<R>(e, R::name_of(e[i]));
    assert(R::name_of(e[i]) == R::name_of(e[i]));
    assert(0 <= j < e.len() && R::name_of(e[j]) == R::name_of(e[i]));
}

/// A key of the bucket is the name of the record at its position.
pub proof fn lemma_key_position<R: Record>(e: Seq<R::V>, k: Seq<u8>)
    requires
        has_name::<R>(e, k),
    ensures
        0 <= index_of::<R>(e, k) < e.len(),
        R::name_of(e[index_of::<R>(e, k)]) == k,
        as_map::<R>(e)[k] == e[index_of::<R>(e, k)],
{
}

/// Two listings of one bucket hold the same records, each once.
pub proof fn lemma_listings_agree<R: Record>(e1: Seq<R::V>, e2: Seq<R::V>)
    requires
        names_distinct::<R>(e1),
        names_distinct::<R>(e2),
        as_map::<R>(e1) == as_map::<R>(e2),
    ensures
        e1.to_multiset() == e2.to_multiset(),
{
    broadcast use vstd::seq_lib::group_to_multiset_ensures;

    lemma_no_duplicates::<R>(e1);
    lemma_no_duplicates::<R>(e2);
    e1.lemma_multiset_has_no_duplicates();
    e2.lemma_multiset_has_no_duplicates();
    assert forall|v: R::V| e1.to_multiset().count(v) == e2.to_multiset().count(v) by {
        lemma_contains_via_map::<R>(e1, v);
        lemma_contains_via_map::<R>(e2, v);
    }
    assert(e1.to_multiset() =~= e2.to_multiset());
}

proof fn lemma_no_duplicates<R: Record>(e: Seq<R::V>)
    requires
        names_distinct::<R>(e),
    ensures
        e.no_duplicates(),
{
    assert forall|i: int, j: int| 0 <= i < e.len() && 0 <= j < e.len() && i != j implies e[i]
        != e[j] by {
        assert(R::name_of(e[i]) != R::name_of(e[j]));
    }
}

proof fn lemma_contains_via_map<R: Record>(e: Seq<R::V>, v: R::V)
    requires
        names_distinct::<R>(e),
    ensures
        e.contains(v) <==> (as_map::<R>(e).contains_key(R::name_of(v)) && as_map::<R>(
            e,
        )[R::name_of(v)] == v),
{
    if e.contains(v) {
        let i = choose|i: int| 0 <= i < e.len() && e[i] == v;
        lemma_index_of::<R>(e, i);
    }
    if as_map::<R>(e).contains_key(R::name_of(v)) && as_map::<R>(e)[R::name_of(v)] == v {
        lemma_key_position::<R>(e, R::name_of(v));
        assert(e[index_of::<R>(e, R::name_of(v))] == v);
    }
}

/// Listings that hold the same records equally often have text forms that are
/// the same texts equally often.
pub proof fn lemma_texts_multiset<R: Record>(e1: Seq<R::V>, e2: Seq<R::V>)
    requires
        e1.to_multiset() == e2.to_multiset(),
    ensures
        texts::<R>(e1).to_multiset() == texts::<R>(e2).to_multiset(),
    decreases e1.len(),
{
    broadcast use vstd::seq_lib::group_to_multiset_ensures;

    if e1.len() == 0 {
        assert(e1.to_multiset().len() == e1.len());
        assert(e2.to_multiset().len() == e2.len());
        assert(texts::<R>(e1) =~= texts::<R>(e2));
    } else {
        let x = e1.last();
        let rest1 = e1.drop_last();
        assert(rest1.push(x) =~= e1);
        assert(e1.to_multiset().count(x) > 0);
        assert(e2.contains(x));
        let j = choose|j: int| 0 <= j < e2.len() && e2[j] == x;
        let rest2 = e2.remove(j);
        assert(rest2.to_multiset() =~= rest1.to_multiset()) by {
            assert(rest1.push(x).to_multiset() =~= rest1.to_multiset().insert(x));
            assert(rest2.to_multiset() == e2.to_multiset().remove(x));
        }
        lemma_texts_multiset::<R>(rest1, rest2);
        assert(texts::<R>(e1) =~= texts::<R>(rest1).push(R::text_of(x)));
        assert(texts::<R>(e2) =~= texts::<R>(rest2).insert(j, R::text_of(x)));
        vstd::seq_lib::to_multiset_build(texts::<R>(rest1), R::text_of(x));
        vstd::seq_lib::to_multiset_insert(texts::<R>(rest2), j, R::text_of(x));
    }
}

/// The byte form does not depend on the order in which the records are held.
pub proof fn lemma_order_independent<R: Record>(e1: Seq<R::V>, e2: Seq<R::V>)
    requires
        e1.to_multiset() == e2.to_multiset(),
    ensures
        bucket_text::<R>(e1) == bucket_text::<R>(e2),
{
    lemma_texts_multiset::<R>(e1, e2);
    lemma_lex_total_ordering();
    texts::<R>(e1).lemma_sort_by_ensures(lex_order());
    lemma_sorted_texts_unique(texts::<R>(e2), sorted_texts(texts::<R>(e1)));
}

/// The byte form of a bucket is the byte form of any listing of its records.
pub proof fn lemma_text_of_listing<R: Record>(e: Seq<R::V>)
    requires
        names_distinct::<R>(e),
    ensures
        map_text::<R>(as_map::<R>(e)) == bucket_text::<R>(e),
{
    let m = as_map::<R>(e);
    assert(represents::<R>(e, m));
    let chosen = choose|c: Seq<R::V>| represents::<R>(c, m);
    assert(represents::<R>(chosen, m));
    lemma_listings_agree::<R>(chosen, e);
    lemma_order_independent::<R>(chosen, e);
}

/// Where records with one name are one record, storing them one after the
/// other keeps each of them.
proof fn lemma_collect<R: Record>(records: Seq<R::V>)
    requires
        forall|i: int, j: int|
            0 <= i < records.len() && 0 <= j < records.len() && R::name_of(#[trigger] records[i])
                == R::name_of(#[trigger] records[j]) ==> records[i] == records[j],
    ensures
        forall|i: int|
            0 <= i < records.len() ==> collect::<R>(records).contains_key(
                R::name_of(#[trigger] records[i]),
            )
                && collect::<R>(records)[R::name_of(records[i])] == records[i],
        forall|k: Seq<u8>| #[trigger]
            collect::<R>(records).contains_key(k) ==> has_name::<R>(records, k),
    decreases records.len(),
{
    if records.len() > 0 {
        let init = records.drop_last();
        assert forall|i: int, j: int|
            0 <= i < init.len() && 0 <= j < init.len() && R::name_of(#[trigger] init[i])
                == R::name_of(#[trigger] init[j]) implies init[i] == init[j] by {
            assert(init[i] == records[i] && init[j] == records[j]);
        }
        lemma_collect::<R>(init);
        assert forall|i: int| 0 <= i < records.len() implies collect::<R>(records).contains_key(
            R::name_of(#[trigger] records[i]),
        ) && collect::<R>(records)[R::name_of(records[i])] == records[i] by {
            if i < init.len() {
                assert(init[i] == records[i]);
                assert(collect::<R>(init).contains_key(R::name_of(init[i])));
                assert(R::name_of(records[records.len() - 1]) == R::name_of(records[i])
                    ==> records.last() == records[i]);
            }
        }
        assert forall|k: Seq<u8>| #[trigger]
            collect::<R>(records).contains_key(k) implies has_name::<R>(records, k) by {
            if k == R::name_of(records.last()) {
                assert(R::name_of(records[records.len() - 1]) == k);
            } else {
                assert(collect::<R>(init).contains_key(k));
                assert(has_name::<R>(init, k));
                let i = choose|i: int| 0 <= i < init.len() && R::name_of(#[trigger] init[i]) == k;
                assert(R::name_of(records[i]) == k);
            }
        }
    }
}

/// The sorted text forms of well-formed records are pipe-free, read as
/// records, and read as exactly the records that were written.
proof fn lemma_sorted_records<R: Record>(e: Seq<R::V>)
    requires
        forall|i: int| 0 <= i < e.len() ==> R::well_formed(#[trigger] e[i]),
    ensures
        sorted_texts(texts::<R>(e)).len() == e.len(),
        all_free_of(sorted_texts(texts::<R>(e)), PIPE),
        all_parse::<R>(sorted_texts(texts::<R>(e))),
        forall|k: int|
            0 <= k < e.len() ==> e.contains(#[trigger] parsed::<R>(sorted_texts(texts::<R>(e)))[k]),
        forall|a: int|
            0 <= a < e.len() ==> parsed::<R>(sorted_texts(texts::<R>(e))).contains(
                #[trigger] e[a],
            ),
{
    broadcast use vstd::seq_lib::group_to_multiset_ensures;

    let t = texts::<R>(e);
    let s = sorted_texts(t);
    let r = parsed::<R>(s);
    lemma_lex_total_ordering();
    t.lemma_sort_by_ensures(lex_order());
    assert(s.to_multiset().len() == s.len());
    assert(t.to_multiset().len() == t.len());
    assert forall|k: int| 0 <= k < s.len() implies free_of(#[trigger] s[k], PIPE)
        && R::read(s[k]) is Some && e.contains(R::read(s[k])->0) by {
        assert(s.to_multiset().count(s[k]) > 0);
        assert(t.contains(s[k]));
        let j = choose|j: int| 0 <= j < t.len() && t[j] == s[k];
        R::lemma_round_trip(e[j]);
        assert(e[j] == R::read(s[k])->0);
    }
    assert forall|k: int| 0 <= k < e.len() implies e.contains(#[trigger] r[k]) by {
        assert(free_of(s[k], PIPE));
    }
    assert forall|a: int| 0 <= a < e.len() implies r.contains(#[trigger] e[a]) by {
        R::lemma_round_trip(e[a]);
        assert(t[a] == R::text_of(e[a]));
        assert(t.to_multiset().count(t[a]) > 0);
        assert(s.contains(t[a]));
        let i = choose|i: int| 0 <= i < s.len() && s[i] == t[a];
        assert(r[i] == e[a]);
    }
}

/// Storing, one after the other, records that are exactly those of a listing
/// without repeated names gives the bucket of that listing.
proof fn lemma_collect_listing<R: Record>(r: Seq<R::V>, e: Seq<R::V>)
    requires
        names_distinct::<R>(e),
        forall|k: int| 0 <= k < r.len() ==> e.contains(#[trigger] r[k]),
        forall|a: int| 0 <= a < e.len() ==> r.contains(#[trigger] e[a]),
    ensures
        collect::<R>(r) == as_map::<R>(e),
{
    assert forall|i: int, j: int|
        0 <= i < r.len() && 0 <= j < r.len() && R::name_of(#[trigger] r[i]) == R::name_of(
            #[trigger] r[j],
        )
        implies r[i] == r[j] by {
        assert(e.contains(r[i]) && e.contains(r[j]));
        let a = choose|a: int| 0 <= a < e.len() && e[a] == r[i];
        let b = choose|b: int| 0 <= b < e.len() && e[b] == r[j];
        assert(R::name_of(e[a]) == R::name_of(e[b]));
    }
    lemma_collect::<R>(r);
    let m = as_map::<R>(e);
    assert forall|k: Seq<u8>| collect::<R>(r).contains_key(k) <==> m.contains_key(k) by {
        if collect::<R>(r).contains_key(k) {
            let i = choose|i: int| 0 <= i < r.len() && R::name_of(#[trigger] r[i]) == k;
            assert(e.contains(r[i]));
            let a = choose|a: int| 0 <= a < e.len() && e[a] == r[i];
            assert(R::name_of(e[a]) == k);
        }
        if m.contains_key(k) {
            let a = index_of::<R>(e, k);
            assert(r.contains(e[a]));
            let i = choose|i: int| 0 <= i < r.len() && r[i] == e[a];
            assert(collect::<R>(r).contains_key(R::name_of(r[i])));
        }
    }
    assert forall|k: Seq<u8>| m.contains_key(k) implies collect::<R>(r)[k] == m[k] by {
        let a = index_of::<R>(e, k);
        assert(r.contains(e[a]));
        let i = choose|i: int| 0 <= i < r.len() && r[i] == e[a];
        assert(collect::<R>(r)[R::name_of(r[i])] == r[i]);
    }
    assert(collect::<R>(r) =~= m);
}

/// Reading the byte form of a bucket of well-formed records gives the bucket
/// back, provided that it is not empty.
pub proof fn lemma_bucket_round_trip<R: Record>(e: Seq<R::V>)
    requires
        names_distinct::<R>(e),
        e.len() > 0,
        forall|i: int| 0 <= i < e.len() ==> R::well_formed(#[trigger] e[i]),
    ensures
        parse_bucket::<R>(bucket_text::<R>(e)) == Some(as_map::<R>(e)),
{
    let s = sorted_texts(texts::<R>(e));
    lemma_sorted_records::<R>(e);
    lemma_split_join(s, PIPE);
    lemma_collect_listing::<R>(parsed::<R>(s), e);
}

/// Whatever a byte form reads as holds at least one record.
pub proof fn lemma_parsed_bucket_nonempty<R: Record>(text: Seq<u8>)
    requires
        parse_bucket::<R>(text) is Some,
    ensures
        parse_bucket::<R>(text)->0 != Map::<Seq<u8>, R::V>::empty(),
{
    let pieces = split(text, PIPE);
    lemma_split_pieces(text, PIPE);
    let r = parsed::<R>(pieces);
    assert(collect::<R>(r).contains_key(R::name_of(r.last())));
}

/// Whatever a byte form reads as holds well-formed records only, each under
/// its own name.
pub proof fn lemma_parsed_bucket_wf<R: Record>(text: Seq<u8>)
    requires
        parse_bucket::<R>(text) is Some,
    ensures
        bucket_wf::<R>(parse_bucket::<R>(text)->0),
{
    let pieces = split(text, PIPE);
    lemma_split_pieces(text, PIPE);
    let r = parsed::<R>(pieces);
    assert forall|i: int| 0 <= i < r.len() implies R::well_formed(#[trigger] r[i]) by {
        assert(free_of(pieces[i], PIPE));
        assert(R::read(pieces[i]) is Some);
        R::lemma_read_well_formed(pieces[i]);
    }
    lemma_collect_wf::<R>(r);
}

proof fn lemma_collect_wf<R: Record>(records: Seq<R::V>)
    requires
        forall|i: int| 0 <= i < records.len() ==> R::well_formed(#[trigger] records[i]),
    ensures
        bucket_wf::<R>(collect::<R>(records)),
    decreases records.len(),
{
    if records.len() > 0 {
        let init = records.drop_last();
        assert forall|i: int| 0 <= i < init.len() implies R::well_formed(#[trigger] init[i]) by {
            assert(init[i] == records[i]);
        }
        lemma_collect_wf::<R>(init);
        assert(R::well_formed(records[records.len() - 1]));
    }
}

/// Replacing a record by one of the same name stores the new record under
/// that name.
pub proof fn lemma_listing_update<R: Record>(e: Seq<R::V>, i: int, s: R::V)
    requires
        names_distinct::<R>(e),
        0 <= i < e.len(),
        R::name_of(e[i]) == R::name_of(s),
    ensures
        names_distinct::<R>(e.update(i, s)),
        as_map::<R>(e.update(i, s)) == as_map::<R>(e).insert(R::name_of(s), s),
{
    let after = e.update(i, s);
    lemma_same_names::<R>(e, after);
    assert forall|k: Seq<u8>| has_name::<R>(after, k) implies #[trigger] as_map::<R>(after)[k]
        == (if k == R::name_of(s) {
        s
    } else {
        as_map::<R>(e)[k]
    }) by {
        lemma_key_position::<R>(after, k);
        let j = index_of::<R>(after, k);
        if k == R::name_of(s) {
            lemma_index_of::<R>(after, i);
        } else {
            assert(R::name_of(e[j]) == k);
            lemma_index_of::<R>(e, j);
        }
    }
    assert(as_map::<R>(after) =~= as_map::<R>(e).insert(R::name_of(s), s));
}

/// Adding a record of a new name stores it under that name.
pub proof fn lemma_listing_push<R: Record>(e: Seq<R::V>, s: R::V)
    requires
        names_distinct::<R>(e),
        !has_name::<R>(e, R::name_of(s)),
    ensures
        names_distinct::<R>(e.push(s)),
        as_map::<R>(e.push(s)) == as_map::<R>(e).insert(R::name_of(s), s),
{
    let after = e.push(s);
    assert forall|k: Seq<u8>| has_name::<R>(after, k) <==> (has_name::<R>(e, k) || k
        == R::name_of(s)) by {
        if has_name::<R>(after, k) {
            let j = choose|j: int| 0 <= j < after.len() && R::name_of(#[trigger] after[j]) == k;
            if j < e.len() {
                assert(R::name_of(e[j]) == k);
            }
        }
        if has_name::<R>(e, k) {
            let j = choose|j: int| 0 <= j < e.len() && R::name_of(#[trigger] e[j]) == k;
            assert(R::name_of(after[j]) == k);
        }
        if k == R::name_of(s) {
            assert(R::name_of(after[e.len() as int]) == k);
        }
    }
    assert(names_distinct::<R>(after)) by {
        assert forall|i: int, j: int|
            0 <= i < after.len() && 0 <= j < after.len() && i != j implies R::name_of(
                #[trigger] after[i],
            ) != R::name_of(#[trigger] after[j]) by {
            if i < e.len() && j < e.len() {
                assert(R::name_of(e[i]) != R::name_of(e[j]));
            } else if i < e.len() {
                assert(R::name_of(e[i]) == R::name_of(after[i]));
            } else {
                assert(R::name_of(e[j]) == R::name_of(after[j]));
            }
        }
    }
    assert forall|k: Seq<u8>| has_name::<R>(after, k) implies #[trigger] as_map::<R>(after)[k]
        == (if k == R::name_of(s) {
        s
    } else {
        as_map::<R>(e)[k]
    }) by {
        lemma_key_position::<R>(after, k);
        let j = index_of::<R>(after, k);
        if k != R::name_of(s) {
            assert(R::name_of(e[j]) == k);
            lemma_index_of::<R>(e, j);
        } else {
            lemma_index_of::<R>(after, e.len() as int);
        }
    }
    assert(as_map::<R>(after) =~= as_map::<R>(e).insert(R::name_of(s), s));
}

/// Taking a record out takes its name out of the bucket.
pub proof fn lemma_listing_remove<R: Record>(e: Seq<R::V>, i: int)
    requires
        names_distinct::<R>(e),
        0 <= i < e.len(),
    ensures
        names_distinct::<R>(e.remove(i)),
        as_map::<R>(e.remove(i)) == as_map::<R>(e).remove(R::name_of(e[i])),
{
    let after = e.remove(i);
    let name = R::name_of(e[i]);
    assert(names_distinct::<R>(after)) by {
        assert forall|a: int, b: int|
            0 <= a < after.len() && 0 <= b < after.len() && a != b implies R::name_of(
                #[trigger] after[a],
            ) != R::name_of(#[trigger] after[b]) by {
            let a0 = if a < i { a } else { a + 1 };
            let b0 = if b < i { b } else { b + 1 };
            assert(after[a] == e[a0] && after[b] == e[b0]);
        }
    }
    assert forall|k: Seq<u8>| has_name::<R>(after, k) <==> (has_name::<R>(e, k) && k != name) by {
        if has_name::<R>(after, k) {
            let j = choose|j: int| 0 <= j < after.len() && R::name_of(#[trigger] after[j]) == k;
            let j0 = if j < i { j } else { j + 1 };
            assert(R::name_of(e[j0]) == k);
            assert(R::name_of(e[j0]) != R::name_of(e[i]));
        }
        if has_name::<R>(e, k) && k != name {
            let j = choose|j: int| 0 <= j < e.len() && R::name_of(#[trigger] e[j]) == k;
            let j1 = if j < i { j } else { j - 1 };
            assert(R::name_of(after[j1]) == k);
        }
    }
    assert forall|k: Seq<u8>| has_name::<R>(after, k) implies #[trigger] as_map::<R>(after)[k]
        == as_map::<R>(e)[k] by {
        lemma_key_position::<R>(after, k);
        let j = index_of::<R>(after, k);
        let j0 = if j < i { j } else { j + 1 };
        assert(R::name_of(e[j0]) == k);
        lemma_index_of::<R>(e, j0);
    }
    assert(as_map::<R>(after) =~= as_map::<R>(e).remove(name));
}

/// A bucket holds as many names as any listing of it has records.
pub proof fn lemma_listing_len<R: Record>(e: Seq<R::V>)
    requires
        names_distinct::<R>(e),
    ensures
        as_map::<R>(e).dom().finite(),
        as_map::<R>(e).dom().len() == e.len(),
    decreases e.len(),
{
    if e.len() == 0 {
        assert(as_map::<R>(e).dom() =~= Set::<Seq<u8>>::empty());
    } else {
        let init = e.drop_last();
        let last = e.last();
        assert(names_distinct::<R>(init)) by {
            assert forall|i: int, j: int|
                0 <= i < init.len() && 0 <= j < init.len() && i != j implies R::name_of(
                #[trigger] init[i],
            ) != R::name_of(#[trigger] init[j]) by {
                assert(init[i] == e[i] && init[j] == e[j]);
            }
        }
        assert(!has_name::<R>(init, R::name_of(last))) by {
            if has_name::<R>(init, R::name_of(last)) {
                let i = choose|i: int|
                    0 <= i < init.len() && R::name_of(#[trigger] init[i]) == R::name_of(last);
                assert(init[i] == e[i]);
                assert(R::name_of(e[i]) != R::name_of(e[e.len() - 1]));
            }
        }
        lemma_listing_len::<R>(init);
        lemma_listing_push::<R>(init, last);
        assert(init.push(last) =~= e);
        assert(as_map::<R>(e).dom() =~= as_map::<R>(init).dom().insert(R::name_of(last)));
        assert(!as_map::<R>(init).dom().contains(R::name_of(last)));
    }
}

/// The records of the bucket `m` can be listed, each once.
pub open spec fn listable<R: Record>(m: Map<Seq<u8>, R::V>) -> bool {
    exists|e: Seq<R::V>| represents::<R>(e, m)
}

/// Every record of the bucket is UTF-8 text.
pub open spec fn bucket_is_text<R: Record>(m: Map<Seq<u8>, R::V>) -> bool {
    forall|k: Seq<u8>| #[trigger] m.contains_key(k) ==> R::is_text(m[k])
}

/// The empty bucket can be listed.
pub proof fn lemma_listable_empty<R: Record>()
    ensures
        listable::<R>(Map::<Seq<u8>, R::V>::empty()),
{
    let e = Seq::<R::V>::empty();
    assert(as_map::<R>(e) =~= Map::<Seq<u8>, R::V>::empty());
    assert(represents::<R>(e, Map::<Seq<u8>, R::V>::empty()));
}

/// A bucket that can be listed can still be listed once a record is stored
/// in it under its name.
pub proof fn lemma_listable_insert<R: Record>(m: Map<Seq<u8>, R::V>, s: R::V)
    requires
        listable::<R>(m),
    ensures
        listable::<R>(m.insert(R::name_of(s), s)),
{
    let e = choose|e: Seq<R::V>| represents::<R>(e, m);
    if has_name::<R>(e, R::name_of(s)) {
        let i = index_of::<R>(e, R::name_of(s));
        lemma_listing_update::<R>(e, i, s);
        assert(represents::<R>(e.update(i, s), m.insert(R::name_of(s), s)));
    } else {
        lemma_listing_push::<R>(e, s);
        assert(represents::<R>(e.push(s), m.insert(R::name_of(s), s)));
    }
}

/// A bucket that can be listed can still be listed once a name is taken out
/// of it.
pub proof fn lemma_listable_remove<R: Record>(m: Map<Seq<u8>, R::V>, name: Seq<u8>)
    requires
        listable::<R>(m),
    ensures
        listable::<R>(m.remove(name)),
{
    let e = choose|e: Seq<R::V>| represents::<R>(e, m);
    if has_name::<R>(e, name) {
        let i = index_of::<R>(e, name);
        lemma_listing_remove::<R>(e, i);
        assert(represents::<R>(e.remove(i), m.remove(name)));
    } else {
        assert(m.remove(name) =~= m);
    }
}

/// Every record of a bucket that was put together by storing records one
/// after the other is one of those records.
pub proof fn lemma_collect_member<R: Record>(records: Seq<R::V>)
    ensures
        forall|k: Seq<u8>| #[trigger]
            collect::<R>(records).contains_key(k) ==> records.contains(collect::<R>(records)[k])
                && R::name_of(collect::<R>(records)[k]) == k,
    decreases records.len(),
{
    if records.len() > 0 {
        let init = records.drop_last();
        lemma_collect_member::<R>(init);
        assert forall|k: Seq<u8>| #[trigger]
            collect::<R>(records).contains_key(k) implies records.contains(collect::<R>(records)[k])
            && R::name_of(collect::<R>(records)[k]) == k by {
            if k == R::name_of(records.last()) {
                assert(records[records.len() - 1] == records.last());
            } else {
                assert(collect::<R>(init).contains_key(k));
                let i = choose|i: int| 0 <= i < init.len() && init[i] == collect::<R>(init)[k];
                assert(records[i] == init[i]);
            }
        }
    }
}

/// A bucket that was put together by storing records one after the other
/// can be listed.
pub proof fn lemma_collect_listable<R: Record>(records: Seq<R::V>)
    ensures
        listable::<R>(collect::<R>(records)),
    decreases records.len(),
{
    if records.len() == 0 {
        lemma_listable_empty::<R>();
    } else {
        lemma_collect_listable::<R>(records.drop_last());
        lemma_listable_insert::<R>(collect::<R>(records.drop_last()), records.last());
    }
}

/// The byte form of a bucket of texts is UTF-8 text.
pub proof fn lemma_bucket_text_valid<R: Record>(e: Seq<R::V>)
    requires
        forall|i: int| 0 <= i < e.len() ==> R::is_text(#[trigger] e[i]),
    ensures
        valid_utf8(bucket_text::<R>(e)),
{
    let t = texts::<R>(e);
    let s = sorted_texts(t);
    lemma_sorted_members(t);
    assert forall|k: int| 0 <= k < s.len() implies valid_utf8(#[trigger] s[k]) by {
        assert(t.contains(s[k]));
        let j = choose|j: int| 0 <= j < t.len() && t[j] == s[k];
        R::lemma_text_valid(e[j]);
    }
    lemma_join_valid(s, PIPE);
}

/// Whatever a UTF-8 text reads as is a bucket of texts.
pub proof fn lemma_parsed_bucket_is_text<R: Record>(text: Seq<u8>)
    requires
        valid_utf8(text),
        parse_bucket::<R>(text) is Some,
    ensures
        bucket_is_text::<R>(parse_bucket::<R>(text)->0),
{
    let pieces = split(text, PIPE);
    lemma_split_valid(text, PIPE);
    let r = parsed::<R>(pieces);
    lemma_collect_member::<R>(r);
    assert forall|k: Seq<u8>| #[trigger] collect::<R>(r).contains_key(k) implies R::is_text(
        collect::<R>(r)[k],
    ) by {
        let i = choose|i: int| 0 <= i < r.len() && r[i] == collect::<R>(r)[k];
        assert(valid_utf8(pieces[i]));
        assert(R::read(pieces[i]) is Some);
        R::lemma_read_is_text(pieces[i]);
    }
}

/// Reading the byte form of a bucket gives the bucket back, provided that
/// the bucket is not empty and its records are well-formed.
pub proof fn lemma_map_round_trip<R: Record>(m: Map<Seq<u8>, R::V>)
    requires
        listable::<R>(m),
        bucket_wf::<R>(m),
        m != Map::<Seq<u8>, R::V>::empty(),
    ensures
        parse_bucket::<R>(map_text::<R>(m)) == Some(m),
{
    let e = choose|e: Seq<R::V>| represents::<R>(e, m);
    if e.len() == 0 {
        assert(as_map::<R>(e) =~= Map::<Seq<u8>, R::V>::empty());
    }
    assert forall|i: int| 0 <= i < e.len() implies R::well_formed(#[trigger] e[i]) by {
        lemma_index_of::<R>(e, i);
    }
    lemma_bucket_round_trip::<R>(e);
}

/// The byte form of a bucket of texts is UTF-8 text.
pub proof fn lemma_map_text_valid<R: Record>(m: Map<Seq<u8>, R::V>)
    requires
        listable::<R>(m),
        bucket_is_text::<R>(m),
    ensures
        valid_utf8(map_text::<R>(m)),
{
    let e = choose|e: Seq<R::V>| represents::<R>(e, m);
    assert forall|i: int| 0 <= i < e.len() implies R::is_text(#[trigger] e[i]) by {
        lemma_index_of::<R>(e, i);
    }
    lemma_bucket_text_valid::<R>(e);
}

/// The records that share one ledger address, each under its name.
pub struct Bucket<R: Record> {
    entries: Vec<R>,
}

impl<R: Record> View for Bucket<R> {
    type V = Map<Seq<u8>, R::V>;

    open spec fn view(&self) -> Map<Seq<u8>, R::V> {
        as_map::<R>(self.records())
    }
}

impl<R: Record> Bucket<R> {
    /// The records in the order in which they are held.
    pub closed spec fn records(&self) -> Seq<R::V> {
        views::<R>(self.entries@)
    }

    /// No two records share a name.
    pub open spec fn wf(&self) -> bool {
        names_distinct::<R>(self.records())
    }

    /// An empty bucket.
    pub fn new() -> (bucket: Bucket<R>)
        ensures
            bucket.wf(),
            bucket@ == Map::<Seq<u8>, R::V>::empty(),
            bucket.records().len() == 0,
    {
        let bucket: Bucket<R> = Bucket { entries: Vec::new() };
        assert(bucket@ =~= Map::<Seq<u8>, R::V>::empty());
        bucket
    }

    /// Tells whether the bucket holds no record.
    pub fn is_empty(&self) -> (empty: bool)
        ensures
            empty == (self@ == Map::<Seq<u8>, R::V>::empty()),
            empty == (self.records().len() == 0),
    {
        proof {
            if self.entries.len() > 0 {
                assert(R::name_of(self.records()[0]) == R::name_of(self.records()[0]));
                assert(self@.contains_key(R::name_of(self.records()[0])));
            } else {
                assert(self@ =~= Map::<Seq<u8>, R::V>::empty());
            }
        }
        self.entries.len() == 0
    }

    /// The number of records.
    pub fn len(&self) -> (n: usize)
        requires
            self.wf(),
        ensures
            n == self.records().len(),
            self@.dom().finite(),
            n == self@.dom().len(),
    {
        proof {
            lemma_listing_len::<R>(self.records());
        }
        self.entries.len()
    }

    fn position(&self, name: &[u8]) -> (at: Option<usize>)
        ensures
            match at {
                Some(i) => i < self.records().len() && R::name_of(self.records()[i as int])
                    == name@,
                None => !has_name::<R>(self.records(), name@),
            },
    {
        let mut i: usize = 0;
        while i < self.entries.len()
            invariant
                i <= self.entries.len(),
                forall|k: int| 0 <= k < i ==> R::name_of(#[trigger] self.records()[k]) != name@,
            decreases self.entries.len() - i,
        {
            if bytes_eq(self.entries[i].record_name(), name) {
                return Some(i);
            }
            i = i + 1;
        }
        None
    }

    /// The record stored under `name`, if there is one.
    pub fn get(&self, name: &[u8]) -> (found: Option<&R>)
        requires
            self.wf(),
        ensures
            match found {
                Some(s) => self@.contains_key(name@) && self@[name@] == s@,
                None => !self@.contains_key(name@),
            },
    {
        match self.position(name) {
            Some(i) => {
                proof {
                    lemma_index_of::<R>(self.records(), i as int);
                }
                Some(&self.entries[i])
            },
            None => None,
        }
    }

    /// Stores `record` under its name, in place of any record that was there.
    pub fn insert(&mut self, record: R)
        requires
            old(self).wf(),
        ensures
            final(self).wf(),
            final(self)@ == old(self)@.insert(R::name_of(record@), record@),
    {
        let ghost before = self.records();
        let at = self.position(record.record_name());
        match at {
            Some(i) => {
                self.entries.set(i, record);
                proof {
                    assert(self.records() =~= before.update(i as int, record@));
                    lemma_listing_update::<R>(before, i as int, record@);
                }
            },
            None => {
                self.entries.push(record);
                proof {
                    assert(self.records() =~= before.push(record@));
                    lemma_listing_push::<R>(before, record@);
                }
            },
        }
    }

    /// Takes out the record stored under `name`, if there is one.
    pub fn remove(&mut self, name: &[u8])
        requires
            old(self).wf(),
        ensures
            final(self).wf(),
            final(self)@ == old(self)@.remove(name@),
    {
        let ghost before = self.records();
        match self.position(name) {
            Some(i) => {
                self.entries.remove(i);
                proof {
                    assert(self.records() =~= before.remove(i as int));
                    lemma_listing_remove::<R>(before, i as int);
                }
            },
            None => {
                assert(as_map::<R>(before) =~= as_map::<R>(before).remove(name@));
            },
        }
    }
}

proof fn lemma_same_names<R: Record>(before: Seq<R::V>, after: Seq<R::V>)
    requires
        names_distinct::<R>(before),
        before.len() == after.len(),
        forall|i: int|
            0 <= i < before.len() ==> R::name_of(#[trigger] before[i]) == R::name_of(after[i]),
    ensures
        names_distinct::<R>(after),
        forall|k: Seq<u8>| has_name::<R>(after, k) <==> has_name::<R>(before, k),
{
    assert forall|i: int, j: int|
        0 <= i < after.len() && 0 <= j < after.len() && i != j implies R::name_of(
            #[trigger] after[i],
        ) != R::name_of(#[trigger] after[j]) by {
        assert(R::name_of(before[i]) != R::name_of(before[j]));
    }
    assert forall|k: Seq<u8>| has_name::<R>(after, k) <==> has_name::<R>(before, k) by {
        if has_name::<R>(after, k) {
            let j = choose|j: int| 0 <= j < after.len() && R::name_of(#[trigger] after[j]) == k;
            assert(R::name_of(before[j]) == k);
        }
        if has_name::<R>(before, k) {
            let j = choose|j: int| 0 <= j < before.len() && R::name_of(#[trigger] before[j]) == k;
            assert(R::name_of(after[j]) == k);
        }
    }
}

impl<R: Record> Bucket<R> {
    /// Writes the byte form of the bucket.
    ///
    /// The result depends on the records of the bucket alone, not on the order
    /// in which the bucket holds them.
    pub fn serialize(&self) -> (text: Vec<u8>)
        requires
            self.wf(),
        ensures
            text@ == map_text::<R>(self@),
            text@ == bucket_text::<R>(self.records()),
    {
        let mut lines: Vec<Vec<u8>> = Vec::new();
        let mut i: usize = 0;
        while i < self.entries.len()
            invariant
                i <= self.entries.len(),
                rows(lines@) == texts::<R>(self.records().take(i as int)),
            decreases self.entries.len() - i,
        {
            let ghost written = rows(lines@);
            lines.push(self.entries[i].encode());
            proof {
                let e = self.records();
                assert(e[i as int] == self.entries@[i as int]@);
                assert(rows(lines@) =~= written.push(R::text_of(e[i as int])));
                assert(texts::<R>(e.take(i + 1)) =~= texts::<R>(e.take(i as int)).push(
                    R::text_of(e[i as int]),
                ));
            }
            i = i + 1;
        }
        proof {
            assert(self.records().take(i as int) =~= self.records());
            lemma_text_of_listing::<R>(self.records());
        }
        let sorted = sort_texts(lines);
        join_bytes(&sorted, PIPE)
    }

    /// Reads a bucket from its byte form, or gives `None` where some
    /// pipe-separated piece of it is no record.
    pub fn deserialize(text: &[u8]) -> (bucket: Option<Bucket<R>>)
        ensures
            match parse_bucket::<R>(text@) {
                Some(m) => bucket matches Some(b) && b.wf() && b@ == m && bucket_wf::<R>(m),
                None => bucket is None,
            },
    {
        let pieces = split_bytes(text, PIPE);
        let ghost p = rows(pieces@);
        let mut held: Bucket<R> = Bucket::new();
        let mut i: usize = 0;
        assert(parsed::<R>(p.take(0)) =~= Seq::<R::V>::empty());
        while i < pieces.len()
            invariant
                i <= pieces.len(),
                p == rows(pieces@),
                p == split(text@, PIPE),
                held.wf(),
                all_parse::<R>(p.take(i as int)),
                held@ == collect::<R>(parsed::<R>(p.take(i as int))),
            decreases pieces.len() - i,
        {
            match R::decode(pieces[i].as_slice()) {
                Some(record) => {
                    proof {
                        let done = p.take(i as int);
                        let next = p.take(i + 1);
                        assert(next.drop_last() =~= done);
                        assert(parsed::<R>(next).drop_last() =~= parsed::<R>(done));
                        assert(parsed::<R>(next).last() == record@);
                        assert forall|k: int| 0 <= k < next.len() implies R::read(
                            #[trigger] next[k],
                        ) is Some by {
                            if k < i {
                                assert(done[k] == next[k]);
                            }
                        }
                    }
                    held.insert(record);
                },
                None => {
                    assert(R::read(p[i as int]) is None);
                    return None;
                },
            }
            i = i + 1;
        }
        proof {
            assert(p.take(i as int) =~= p);
            lemma_parsed_bucket_wf::<R>(text@);
        }
        Some(held)
    }
}

} // verus!
