//! What the families of records have in common: a name, and a text form that
//! can be read back.

use vstd::prelude::*;
use vstd::utf8::valid_utf8;
use crate::bytes::{free_of, PIPE};

verus! {

/// A family of records that are stored in buckets.
///
/// A family says what the name and the text form of a record are and what a
/// text reads as, and shows that the text form of a well-formed record reads
/// back as the record.
pub trait Record: View + Sized {
    /// The name under which a record is stored.
    spec fn name_of(v: Self::V) -> Seq<u8>;

    /// The text form of a record.
    spec fn text_of(v: Self::V) -> Seq<u8>;

    /// The record that a text stands for, if it stands for one.
    spec fn read(text: Seq<u8>) -> Option<Self::V>;

    /// A record whose text form can be read back.
    spec fn well_formed(v: Self::V) -> bool;

    /// A record whose text fields are UTF-8 text.
    spec fn is_text(v: Self::V) -> bool;

    /// Reading the text form of a well-formed record gives the record back,
    /// and the text form holds no pipe.
    proof fn lemma_round_trip(v: Self::V)
        requires
            Self::well_formed(v),
        ensures
            Self::read(Self::text_of(v)) == Some(v),
            free_of(Self::text_of(v), PIPE),
    ;

    /// Whatever a pipe-free text reads as is a well-formed record.
    proof fn lemma_read_well_formed(text: Seq<u8>)
        requires
            free_of(text, PIPE),
            Self::read(text) is Some,
        ensures
            Self::well_formed(Self::read(text)->0),
    ;

    /// The text form of a record of texts is UTF-8 text.
    proof fn lemma_text_valid(v: Self::V)
        requires
            Self::is_text(v),
        ensures
            valid_utf8(Self::text_of(v)),
    ;

    /// Whatever a UTF-8 text reads as is a record of texts.
    proof fn lemma_read_is_text(text: Seq<u8>)
        requires
            valid_utf8(text),
            Self::read(text) is Some,
        ensures
            Self::is_text(Self::read(text)->0),
    ;

    /// The record's name.
    fn record_name(&self) -> (name: &[u8])
        ensures
            name@ == Self::name_of(self@),
    ;

    /// Writes the record's text form.
    fn encode(&self) -> (text: Vec<u8>)
        ensures
            text@ == Self::text_of(self@),
    ;

    /// Reads a record from its text form, or gives `None` where the text
    /// stands for none.
    fn decode(text: &[u8]) -> (record: Option<Self>)
        ensures
            match Self::read(text@) {
                Some(v) => record matches Some(r) && r@ == v,
                None => record is None,
            },
    ;
}

} // verus!
