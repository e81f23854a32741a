//! Telling UTF-8 text from other bytes.

use vstd::prelude::*;
use vstd::utf8::{
    is_char_boundary_iff_is_leading_byte, partial_valid_utf8_extend_ascii_block, valid_utf8,
    valid_utf8_concat, valid_utf8_split,
};
use crate::bytes::{free_of, join, lemma_split_at_delimiter, lemma_split_free, split};

verus! {

/// Tells whether `bytes` is UTF-8 text.
///
/// Not proved: this calls `std::str::from_utf8`, which is documented to
/// succeed on exactly the byte strings that are valid UTF-8.
#[verifier::external_body]
pub(crate) fn utf8_check(bytes: &[u8]) -> (valid: bool)
    ensures
        valid == valid_utf8(bytes@),
{
    std::str::from_utf8(bytes).is_ok()
}

/// Tells whether `bytes` is UTF-8 text.
pub fn is_utf8(bytes: &[u8]) -> (valid: bool)
    ensures
        valid == valid_utf8(bytes@),
{
    utf8_check(bytes)
}

/// Every byte of `s` is an ASCII character.
pub open spec fn all_ascii(s: Seq<u8>) -> bool {
    forall|i: int| 0 <= i < s.len() ==> #[trigger] s[i] < 128
}

/// Every element of `parts` is UTF-8 text.
pub open spec fn all_valid(parts: Seq<Seq<u8>>) -> bool {
    forall|k: int| 0 <= k < parts.len() ==> valid_utf8(#[trigger] parts[k])
}

/// ASCII characters are UTF-8 text.
pub proof fn lemma_ascii_valid(s: Seq<u8>)
    requires
        all_ascii(s),
    ensures
        valid_utf8(s),
{
    assert(s.subrange(0, 0) =~= Seq::<u8>::empty());
    assert(valid_utf8(s.subrange(0, 0)));
    partial_valid_utf8_extend_ascii_block(s, 0, s.len() as int);
    assert(s.subrange(0, s.len() as int) =~= s);
}

/// Texts joined by an ASCII character are a text.
pub proof fn lemma_join_valid(parts: Seq<Seq<u8>>, d: u8)
    requires
        d < 128,
        all_valid(parts),
    ensures
        valid_utf8(join(parts, d)),
    decreases parts.len(),
{
    if parts.len() == 0 {
    } else if parts.len() == 1 {
        assert(valid_utf8(parts[0]));
    } else {
        let init = parts.drop_last();
        assert forall|k: int| 0 <= k < init.len() implies valid_utf8(#[trigger] init[k]) by {
            assert(init[k] == parts[k]);
        }
        lemma_join_valid(init, d);
        assert(all_ascii(seq![d]));
        lemma_ascii_valid(seq![d]);
        valid_utf8_concat(join(init, d), seq![d]);
        assert(join(init, d) + seq![d] =~= join(init, d).push(d));
        assert(valid_utf8(parts[parts.len() - 1]));
        valid_utf8_concat(join(init, d).push(d), parts.last());
    }
}

/// Cutting a text at an ASCII character leaves a text on either side.
pub proof fn lemma_cut_valid(s: Seq<u8>, i: int)
    requires
        valid_utf8(s),
        0 <= i < s.len(),
        s[i] < 128,
    ensures
        valid_utf8(s.take(i)),
        valid_utf8(s.skip(i + 1)),
{
    is_char_boundary_iff_is_leading_byte(s, i);
    valid_utf8_split(s, i);
    let tail = s.subrange(i, s.len() as int);
    assert(tail[0] == s[i]);
    assert(tail.subrange(1, tail.len() as int) =~= s.skip(i + 1));
    assert(s.subrange(0, i) =~= s.take(i));
}

/// The pieces of a text between occurrences of an ASCII character are texts.
pub proof fn lemma_split_valid(s: Seq<u8>, d: u8)
    requires
        d < 128,
        valid_utf8(s),
    ensures
        all_valid(split(s, d)),
    decreases s.len(),
{
    if free_of(s, d) {
        lemma_split_free(s, d);
    } else {
        let i = choose|i: int| 0 <= i < s.len() && s[i] == d;
        let a = s.take(i);
        let b = s.skip(i + 1);
        lemma_cut_valid(s, i);
        lemma_split_valid(a, d);
        lemma_split_valid(b, d);
        lemma_split_at_delimiter(a, b, d);
        assert(a.push(d) + b =~= s);
        let left = split(a, d);
        let right = split(b, d);
        assert forall|k: int| 0 <= k < (left + right).len() implies valid_utf8(
            #[trigger] (left + right)[k],
        ) by {
            if k < left.len() {
                assert((left + right)[k] == left[k]);
            } else {
                assert((left + right)[k] == right[k - left.len()]);
            }
        }
    }
}

} // verus!
