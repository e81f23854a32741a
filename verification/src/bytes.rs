//! Byte strings: splitting at a delimiter, joining with one, copying and
//! comparing.
//!
//! Ledger values and transaction payloads are delimiter-separated ASCII
//! records. Everything here works on raw bytes; since the delimiters are ASCII,
//! splitting a UTF-8 text at them never cuts a character.

use vstd::prelude::*;

verus! {

/// Separates the fields of one record.
pub const COMMA: u8 = 44;

/// Separates the records of one bucket.
pub const PIPE: u8 = 124;

/// Separates the entries of a log.
pub const SEMICOLON: u8 = 59;

/// The bytes of an ASCII text, one per character.
pub open spec fn ascii(s: Seq<char>) -> Seq<u8> {
    Seq::new(s.len(), |i: int| s[i] as u8)
}

/// The contents of a vector of byte strings.
pub open spec fn rows(v: Seq<Vec<u8>>) -> Seq<Seq<u8>> {
    v.map_values(|r: Vec<u8>| r@)
}

/// `s` does not hold the byte `d`.
pub open spec fn free_of(s: Seq<u8>, d: u8) -> bool {
    forall|i: int| 0 <= i < s.len() ==> s[i] != d
}

/// No element of `parts` holds the byte `d`.
pub open spec fn all_free_of(parts: Seq<Seq<u8>>, d: u8) -> bool {
    forall|k: int| 0 <= k < parts.len() ==> free_of(#[trigger] parts[k], d)
}

/// The pieces of `s` between occurrences of `d`, in order. There is always at
/// least one piece, and `n` occurrences of `d` give `n + 1` pieces, some of
/// which may be empty.
pub open spec fn split(s: Seq<u8>, d: u8) -> Seq<Seq<u8>>
    decreases s.len(),
{
    if s.len() == 0 {
        seq![Seq::<u8>::empty()]
    } else {
        let init = split(s.drop_last(), d);
        if s.last() == d {
            init.push(Seq::<u8>::empty())
        } else {
            init.update(init.len() - 1, init.last().push(s.last()))
        }
    }
}

/// The elements of `parts`, in order, with one `d` between neighbours.
pub open spec fn join(parts: Seq<Seq<u8>>, d: u8) -> Seq<u8>
    decreases parts.len(),
{
    if parts.len() == 0 {
        Seq::<u8>::empty()
    } else if parts.len() == 1 {
        parts[0]
    } else {
        join(parts.drop_last(), d).push(d) + parts.last()
    }
}

/// Splitting yields at least one piece, and no piece holds the delimiter.
pub proof fn lemma_split_pieces(s: Seq<u8>, d: u8)
    ensures
        split(s, d).len() >= 1,
        all_free_of(split(s, d), d),
    decreases s.len(),
{
    if s.len() > 0 {
        lemma_split_pieces(s.drop_last(), d);
    }
}

/// A byte that `s` does not hold is in none of its pieces.
pub proof fn lemma_split_keeps_free(s: Seq<u8>, d: u8, x: u8)
    requires
        free_of(s, x),
    ensures
        all_free_of(split(s, d), x),
    decreases s.len(),
{
    if s.len() > 0 {
        lemma_split_pieces(s.drop_last(), d);
        lemma_split_keeps_free(s.drop_last(), d, x);
    }
}

/// Appending delimiter-free bytes extends the last piece.
pub proof fn lemma_split_append_free(a: Seq<u8>, b: Seq<u8>, d: u8)
    requires
        free_of(b, d),
    ensures
        split(a + b, d) == split(a, d).update(
            split(a, d).len() - 1,
            split(a, d).last() + b,
        ),
    decreases b.len(),
{
    lemma_split_pieces(a, d);
    let pieces = split(a, d);
    if b.len() == 0 {
        assert(a + b =~= a);
        assert(pieces.last() + b =~= pieces.last());
        assert(pieces.update(pieces.len() - 1, pieces.last()) =~= pieces);
    } else {
        lemma_split_append_free(a, b.drop_last(), d);
        assert((a + b).drop_last() =~= a + b.drop_last());
        assert((pieces.last() + b.drop_last()).push(b.last()) =~= pieces.last() + b);
        let mid = pieces.update(pieces.len() - 1, pieces.last() + b.drop_last());
        assert(mid.update(mid.len() - 1, mid.last().push(b.last())) =~= pieces.update(
            pieces.len() - 1,
            pieces.last() + b,
        ));
    }
}

/// A delimiter-free byte string is its own single piece.
pub proof fn lemma_split_free(s: Seq<u8>, d: u8)
    requires
        free_of(s, d),
    ensures
        split(s, d) == seq![s],
{
    lemma_split_append_free(Seq::<u8>::empty(), s, d);
    assert(Seq::<u8>::empty() + s =~= s);
    assert(split(Seq::<u8>::empty(), d).update(0, Seq::<u8>::empty() + s) =~= seq![s]);
}

/// Splitting distributes over a delimiter: the pieces of `a`, then those of
/// `b`.
pub proof fn lemma_split_at_delimiter(a: Seq<u8>, b: Seq<u8>, d: u8)
    ensures
        split(a.push(d) + b, d) == split(a, d) + split(b, d),
    decreases b.len(),
{
    lemma_split_pieces(a, d);
    if b.len() == 0 {
        assert(a.push(d) + b =~= a.push(d));
        assert(a.push(d).drop_last() =~= a);
        assert(split(a, d).push(Seq::<u8>::empty()) =~= split(a, d) + split(b, d));
    } else {
        let whole = a.push(d) + b;
        lemma_split_at_delimiter(a, b.drop_last(), d);
        lemma_split_pieces(b.drop_last(), d);
        assert(whole.drop_last() =~= a.push(d) + b.drop_last());
        let left = split(a, d);
        let right = split(b.drop_last(), d);
        if b.last() == d {
            assert((left + right).push(Seq::<u8>::empty()) =~= left + right.push(
                Seq::<u8>::empty(),
            ));
        } else {
            assert((left + right).update(
                (left + right).len() - 1,
                (left + right).last().push(b.last()),
            ) =~= left + right.update(right.len() - 1, right.last().push(b.last())));
        }
    }
}

/// Joining the pieces of a byte string gives the byte string back.
pub proof fn lemma_join_split(s: Seq<u8>, d: u8)
    ensures
        join(split(s, d), d) == s,
    decreases s.len(),
{
    if s.len() == 0 {
    } else {
        let init = split(s.drop_last(), d);
        lemma_split_pieces(s.drop_last(), d);
        lemma_join_split(s.drop_last(), d);
        if s.last() == d {
            assert(init.push(Seq::<u8>::empty()).drop_last() =~= init);
            assert(join(init, d).push(d) + Seq::<u8>::empty() =~= s);
        } else {
            let pieces = init.update(init.len() - 1, init.last().push(s.last()));
            if init.len() == 1 {
                assert(pieces[0] =~= s);
            } else {
                assert(pieces.drop_last() =~= init.drop_last());
                assert(join(init.drop_last(), d).push(d) + init.last().push(s.last()) =~= (join(
                    init.drop_last(),
                    d,
                ).push(d) + init.last()).push(s.last()));
                assert(s.drop_last().push(s.last()) =~= s);
            }
        }
    }
}

/// Splitting a join of delimiter-free parts gives the parts back.
pub proof fn lemma_split_join(parts: Seq<Seq<u8>>, d: u8)
    requires
        parts.len() >= 1,
        all_free_of(parts, d),
    ensures
        split(join(parts, d), d) == parts,
    decreases parts.len(),
{
    if parts.len() == 1 {
        lemma_split_free(parts[0], d);
        assert(seq![parts[0]] =~= parts);
    } else {
        let init = parts.drop_last();
        assert(all_free_of(init, d)) by {
            assert forall|k: int| 0 <= k < init.len() implies free_of(#[trigger] init[k], d) by {
                assert(init[k] == parts[k]);
            }
        }
        lemma_split_join(init, d);
        lemma_split_at_delimiter(join(init, d), parts.last(), d);
        lemma_split_free(parts.last(), d);
        assert(init + seq![parts.last()] =~= parts);
    }
}

/// A join holds no byte that is neither the delimiter nor in one of the parts.
pub proof fn lemma_join_free(parts: Seq<Seq<u8>>, d: u8, x: u8)
    requires
        x != d,
        all_free_of(parts, x),
    ensures
        free_of(join(parts, d), x),
    decreases parts.len(),
{
    if parts.len() == 0 {
    } else if parts.len() == 1 {
        assert(free_of(parts[0], x));
    } else {
        let init = parts.drop_last();
        assert(all_free_of(init, x)) by {
            assert forall|k: int| 0 <= k < init.len() implies free_of(#[trigger] init[k], x) by {
                assert(init[k] == parts[k]);
            }
        }
        lemma_join_free(init, d, x);
        assert(free_of(parts[parts.len() - 1], x));
    }
}

/// Joining a concatenation: the two joins with one delimiter between them.
pub proof fn lemma_join_concat(a: Seq<Seq<u8>>, b: Seq<Seq<u8>>, d: u8)
    requires
        a.len() >= 1,
        b.len() >= 1,
    ensures
        join(a + b, d) == join(a, d).push(d) + join(b, d),
    decreases b.len(),
{
    if b.len() == 1 {
        assert((a + b).drop_last() =~= a);
        assert((a + b).last() == b[0]);
    } else {
        lemma_join_concat(a, b.drop_last(), d);
        assert((a + b).drop_last() =~= a + b.drop_last());
        assert((a + b).last() == b.last());
        assert((join(a, d).push(d) + join(b.drop_last(), d)).push(d) + b.last() =~= join(
            a,
            d,
        ).push(d) + (join(b.drop_last(), d).push(d) + b.last()));
    }
}

/// Tells whether two byte strings are equal.
pub fn bytes_eq(a: &[u8], b: &[u8]) -> (same: bool)
    ensures
        same == (a@ == b@),
{
    if a.len() != b.len() {
        return false;
    }
    let mut i: usize = 0;
    while i < a.len()
        invariant
            a.len() == b.len(),
            i <= a.len(),
            forall|k: int| 0 <= k < i ==> a@[k] == b@[k],
        decreases a.len() - i,
    {
        if a[i] != b[i] {
            return false;
        }
        i = i + 1;
    }
    assert(a@ =~= b@);
    true
}

/// Tells whether `s` holds the byte `d`.
pub fn contains_byte(s: &[u8], d: u8) -> (found: bool)
    ensures
        found == !free_of(s@, d),
{
    let mut i: usize = 0;
    while i < s.len()
        invariant
            i <= s.len(),
            forall|k: int| 0 <= k < i ==> s@[k] != d,
        decreases s.len() - i,
    {
        if s[i] == d {
            return true;
        }
        i = i + 1;
    }
    false
}

/// `s` begins with `prefix`.
pub open spec fn begins_with(s: Seq<u8>, prefix: Seq<u8>) -> bool {
    prefix.len() <= s.len() && s.take(prefix.len() as int) == prefix
}

/// Tells whether `s` begins with `prefix`.
pub fn starts_with(s: &[u8], prefix: &[u8]) -> (found: bool)
    ensures
        found == begins_with(s@, prefix@),
{
    if prefix.len() > s.len() {
        return false;
    }
    let mut i: usize = 0;
    while i < prefix.len()
        invariant
            prefix.len() <= s.len(),
            i <= prefix.len(),
            forall|k: int| 0 <= k < i ==> s@[k] == prefix@[k],
        decreases prefix.len() - i,
    {
        if s[i] != prefix[i] {
            assert(s@.take(prefix.len() as int)[i as int] != prefix@[i as int]);
            return false;
        }
        i = i + 1;
    }
    assert(s@.take(prefix.len() as int) =~= prefix@);
    true
}

/// Copies a byte string into a fresh vector.
pub fn copy_bytes(s: &[u8]) -> (copy: Vec<u8>)
    ensures
        copy@ == s@,
{
    vstd::slice::slice_to_vec(s)
}

/// Appends the bytes of `s` to `out`.
pub fn append_bytes(out: &mut Vec<u8>, s: &[u8])
    ensures
        final(out)@ == old(out)@ + s@,
{
    let mut i: usize = 0;
    while i < s.len()
        invariant
            i <= s.len(),
            out@ == old(out)@ + s@.take(i as int),
        decreases s.len() - i,
    {
        out.push(s[i]);
        assert(s@.take(i + 1) =~= s@.take(i as int).push(s@[i as int]));
        i = i + 1;
    }
    assert(s@.take(s.len() as int) =~= s@);
}

/// The bytes of an ASCII text.
pub fn ascii_bytes(text: &str) -> (bytes: Vec<u8>)
    requires
        vstd::string::is_ascii(text),
    ensures
        bytes@ == ascii(text@),
{
    let raw: &[u8] = text.as_bytes();
    proof {
        broadcast use vstd::string::is_ascii_spec_bytes;

        assert(raw@ =~= ascii(text@));
    }
    copy_bytes(raw)
}

/// Tells whether `token` is the ASCII text `word`.
pub fn is_word(token: &[u8], word: &str) -> (same: bool)
    requires
        vstd::string::is_ascii(word),
    ensures
        same == (token@ == ascii(word@)),
{
    let raw: &[u8] = word.as_bytes();
    proof {
        broadcast use vstd::string::is_ascii_spec_bytes;

        assert(raw@ =~= ascii(word@));
    }
    bytes_eq(token, raw)
}

/// Splits `s` at every occurrence of `d`.
pub fn split_bytes(s: &[u8], d: u8) -> (pieces: Vec<Vec<u8>>)
    ensures
        rows(pieces@) == split(s@, d),
        pieces@.len() >= 1,
{
    let mut pieces: Vec<Vec<u8>> = Vec::new();
    let mut current: Vec<u8> = Vec::new();
    let mut i: usize = 0;
    while i < s.len()
        invariant
            i <= s.len(),
            rows(pieces@).push(current@) == split(s@.take(i as int), d),
        decreases s.len() - i,
    {
        let ghost before = rows(pieces@).push(current@);
        proof {
            assert(s@.take(i + 1).drop_last() =~= s@.take(i as int));
            assert(s@.take(i + 1).last() == s@[i as int]);
        }
        if s[i] == d {
            pieces.push(current);
            current = Vec::new();
            assert(rows(pieces@).push(current@) =~= before.push(Seq::<u8>::empty()));
        } else {
            let ghost prior = current@;
            current.push(s[i]);
            assert(rows(pieces@).push(current@) =~= before.update(
                before.len() - 1,
                prior.push(s@[i as int]),
            ));
        }
        i = i + 1;
    }
    pieces.push(current);
    proof {
        assert(s@.take(s.len() as int) =~= s@);
        assert(rows(pieces@) =~= split(s@, d));
    }
    pieces
}

/// Joins the elements of `parts` from index `start` on, with one `d` between
/// neighbours.
pub fn join_from(parts: &Vec<Vec<u8>>, start: usize, d: u8) -> (out: Vec<u8>)
    requires
        start <= parts.len(),
    ensures
        out@ == join(rows(parts@).skip(start as int), d),
{
    let mut out: Vec<u8> = Vec::new();
    let mut i: usize = start;
    while i < parts.len()
        invariant
            start <= i <= parts.len(),
            out@ == join(rows(parts@).subrange(start as int, i as int), d),
        decreases parts.len() - i,
    {
        let ghost done = rows(parts@).subrange(start as int, i as int);
        let ghost next = rows(parts@).subrange(start as int, i + 1);
        proof {
            assert(next.drop_last() =~= done);
            assert(next.last() == parts@[i as int]@);
        }
        if i > start {
            out.push(d);
        }
        append_bytes(&mut out, parts[i].as_slice());
        proof {
            if i == start {
                assert(out@ =~= next[0]);
            }
        }
        i = i + 1;
    }
    proof {
        assert(rows(parts@).subrange(start as int, parts.len() as int) =~= rows(parts@).skip(
            start as int,
        ));
    }
    out
}

/// Joins the elements of `parts` with one `d` between neighbours.
pub fn join_bytes(parts: &Vec<Vec<u8>>, d: u8) -> (out: Vec<u8>)
    ensures
        out@ == join(rows(parts@), d),
{
    let out = join_from(parts, 0, d);
    assert(rows(parts@).skip(0) =~= rows(parts@));
    out
}

} // verus!
