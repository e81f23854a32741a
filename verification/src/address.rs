//! Ledger addresses: where on the ledger the record of a given name lives.
//!
//! An address is 70 hexadecimal characters: the first 6 of the SHA-512 digest
//! of the family's name, then the first 64 of the SHA-512 digest of the
//! record's name. Every node derives the same address from the same names.

use vstd::prelude::*;
use crate::bytes::{append_bytes, ascii, ascii_bytes};

verus! {

/// Number of characters that the family contributes to an address.
pub const PREFIX_LENGTH: usize = 6;

/// Number of characters that the record's name contributes to an address.
pub const SUFFIX_LENGTH: usize = 64;

/// Number of characters in an address.
pub const ADDRESS_LENGTH: usize = 70;

/// The SHA-512 digest of `data`, written as 128 lower-case hexadecimal
/// characters.
pub uninterp spec fn sha512_hex(data: Seq<u8>) -> Seq<u8>;

/// Every byte of `s` is one of the characters `0` to `9` and `a` to `f`.
pub open spec fn is_lower_hex(s: Seq<u8>) -> bool {
    forall|i: int| 0 <= i < s.len() ==> 48 <= #[trigger] s[i] <= 57 || 97 <= s[i] <= 102
}

/// Computes the hexadecimal SHA-512 digest of `data`.
///
/// Not proved: this calls `Sha512::new`, `Digest::input` and
/// `Digest::result_str` of the `crypto` crate. The contract names what they
/// compute, a function of the bytes fed in, and states its shape: 512 bits
/// make 64 bytes, each written as two characters out of `0123456789abcdef`.
#[verifier::external_body]
fn sha512_digest(data: &[u8]) -> (hex: Vec<u8>)
    ensures
        hex@ == sha512_hex(data@),
        hex@.len() == 128,
        is_lower_hex(hex@),
{
    let mut sha = crypto::sha2::Sha512::new();
    crypto::digest::Digest::input(&mut sha, data);
    crypto::digest::Digest::result_str(&mut sha).into_bytes()
}

/// The character for a number below sixteen: `0` to `9`, then `a` to `f`.
pub open spec fn hex_digit(n: u8) -> u8 {
    if n < 10 {
        (48 + n) as u8
    } else {
        (87 + n) as u8
    }
}

/// The bytes of `b` in hexadecimal, two lower-case characters each.
pub open spec fn hex_of(b: Seq<u8>) -> Seq<u8>
    decreases b.len(),
{
    if b.len() == 0 {
        Seq::empty()
    } else {
        hex_of(b.drop_last()).push(hex_digit(b.last() / 16)).push(hex_digit(b.last() % 16))
    }
}

/// Hexadecimal text is twice as long as the bytes that it stands for.
pub proof fn lemma_hex_len(b: Seq<u8>)
    ensures
        hex_of(b).len() == 2 * b.len(),
    decreases b.len(),
{
    if b.len() > 0 {
        lemma_hex_len(b.drop_last());
    }
}

/// Writes bytes in hexadecimal, two lower-case characters each.
pub fn bytes_to_hex_str(b: &[u8]) -> (hex: Vec<u8>)
    ensures
        hex@ == hex_of(b@),
        hex@.len() == 2 * b@.len(),
{
    let mut hex: Vec<u8> = Vec::new();
    let mut i: usize = 0;
    while i < b.len()
        invariant
            i <= b.len(),
            hex@ == hex_of(b@.take(i as int)),
        decreases b.len() - i,
    {
        let high = b[i] / 16;
        let low = b[i] % 16;
        proof {
            assert(b@.take(i + 1).drop_last() =~= b@.take(i as int));
            assert(b@.take(i + 1).last() == b@[i as int]);
        }
        hex.push(if high < 10 { 48 + high } else { 87 + high });
        hex.push(if low < 10 { 48 + low } else { 87 + low });
        i = i + 1;
    }
    proof {
        assert(b@.take(b.len() as int) =~= b@);
        lemma_hex_len(b@);
    }
    hex
}

/// The name of the status family.
pub open spec fn family_name() -> Seq<u8> {
    ascii("sawtooth_message"@)
}

/// The namespace of a family: the first 6 characters of the digest of its
/// name.
pub open spec fn prefix_of(domain: Seq<u8>) -> Seq<u8> {
    sha512_hex(domain).take(6)
}

/// The address of the record `name` in the family `domain`.
pub open spec fn address_of(domain: Seq<u8>, name: Seq<u8>) -> Seq<u8> {
    prefix_of(domain) + sha512_hex(name).take(64)
}

/// The address of the status record `name`.
pub open spec fn status_address(name: Seq<u8>) -> Seq<u8> {
    address_of(family_name(), name)
}

/// Computes the namespace of the family `domain`.
pub fn prefix(domain: &[u8]) -> (namespace: Vec<u8>)
    ensures
        namespace@ == prefix_of(domain@),
        namespace@.len() == 6,
        is_lower_hex(namespace@),
{
    let mut digest = sha512_digest(domain);
    digest.truncate(PREFIX_LENGTH);
    digest
}

/// Computes the address of the record `name` in the family `domain`.
///
/// The result is a function of the two names and of nothing else.
pub fn address(domain: &[u8], name: &[u8]) -> (address: Vec<u8>)
    ensures
        address@ == address_of(domain@, name@),
        address@.len() == 70,
        is_lower_hex(address@),
{
    let mut address = prefix(domain);
    let mut suffix = sha512_digest(name);
    suffix.truncate(SUFFIX_LENGTH);
    append_bytes(&mut address, suffix.as_slice());
    address
}

/// Computes the namespace of the status family.
pub fn get_status_prefix() -> (namespace: Vec<u8>)
    ensures
        namespace@ == prefix_of(family_name()),
        namespace@.len() == 6,
        is_lower_hex(namespace@),
{
    proof {
        reveal_strlit("sawtooth_message");
    }
    let family = ascii_bytes("sawtooth_message");
    prefix(family.as_slice())
}

/// Computes the address of the status record `name`.
pub fn calculate_address(name: &[u8]) -> (address: Vec<u8>)
    ensures
        address@ == status_address(name@),
        address@.len() == 70,
        is_lower_hex(address@),
{
    proof {
        reveal_strlit("sawtooth_message");
    }
    let family = ascii_bytes("sawtooth_message");
    address(family.as_slice(), name)
}

} // verus!
