//! Transaction payloads of the status family.
//!
//! A payload is UTF-8 text of thirteen comma-separated fields: the record's
//! name, the action, and the eleven fields of an update. The last of these is
//! free text, so whatever follows the twelfth comma belongs to it, commas
//! included.

use vstd::prelude::*;
use vstd::utf8::valid_utf8;
use crate::bytes::{
    ascii, contains_byte, copy_bytes, free_of, is_word, join, join_from, lemma_join_free,
    lemma_split_join, lemma_split_keeps_free, lemma_split_pieces, split, split_bytes, COMMA, PIPE,
};
use crate::error::{ApplyError, Corrupted, Rejection};
use crate::utf8::{is_utf8, lemma_join_valid, lemma_split_valid};

verus! {

/// Number of fields in a payload.
pub const PAYLOAD_ARITY: usize = 13;

/// What a transaction asks for.
#[derive(Clone, Copy, Debug, PartialEq, Eq, Structural)]
pub enum Action {
    /// Make the record.
    Create,
    /// Update the record: the call is later than planned.
    Delay,
    /// Update the record: the call is earlier than planned.
    Prepone,
    /// Remove the record.
    Delete,
}

/// The action that a text names, if it names one.
pub open spec fn parse_action(text: Seq<u8>) -> Option<Action> {
    if text == ascii("create"@) {
        Some(Action::Create)
    } else if text == ascii("delay"@) {
        Some(Action::Delay)
    } else if text == ascii("prepone"@) {
        Some(Action::Prepone)
    } else if text == ascii("delete"@) {
        Some(Action::Delete)
    } else {
        None
    }
}

/// Abstract value of a [`StatusPayload`].
pub struct PayloadView {
    pub name: Seq<u8>,
    pub action: Action,
    pub status_string: Seq<u8>,
}

/// What a payload reads as. The checks are made in this order: the bytes are
/// UTF-8 text; there are at least thirteen fields; the name is not empty; the
/// action is not empty; the name holds no pipe; the action is one of the
/// family's four.
pub open spec fn parse_payload(data: Seq<u8>) -> Result<PayloadView, ApplyError> {
    let t = split(data, COMMA);
    if !valid_utf8(data) {
        Err(ApplyError::InvalidSerialization(Corrupted::Payload))
    } else if t.len() < 13 {
        Err(ApplyError::InvalidTransaction(Rejection::PayloadArity))
    } else if t[0].len() == 0 {
        Err(ApplyError::InvalidTransaction(Rejection::NameRequired))
    } else if t[1].len() == 0 {
        Err(ApplyError::InvalidTransaction(Rejection::ActionRequired))
    } else if !free_of(t[0], PIPE) {
        Err(ApplyError::InvalidTransaction(Rejection::NameHasPipe))
    } else {
        match parse_action(t[1]) {
            None => Err(ApplyError::InvalidTransaction(Rejection::InvalidAction)),
            Some(action) => Ok(
                PayloadView { name: t[0], action, status_string: join(t.skip(2), COMMA) },
            ),
        }
    }
}

/// What holds of a payload that passed every check: its name is a text
/// without comma or pipe and not empty; its update is a text whose fields are
/// the payload's fields from the third on, and holds no pipe where the
/// payload holds none.
pub proof fn lemma_payload_fields(data: Seq<u8>)
    requires
        parse_payload(data) is Ok,
    ensures
        ({
            let p = parse_payload(data)->Ok_0;
            &&& p.name.len() > 0
            &&& free_of(p.name, COMMA)
            &&& free_of(p.name, PIPE)
            &&& valid_utf8(p.name)
            &&& valid_utf8(p.status_string)
            &&& split(p.status_string, COMMA) == split(data, COMMA).skip(2)
            &&& free_of(data, PIPE) ==> free_of(p.status_string, PIPE)
        }),
{
    let t = split(data, COMMA);
    let tail = t.skip(2);
    lemma_split_pieces(data, COMMA);
    lemma_split_valid(data, COMMA);
    assert(free_of(t[0], COMMA));
    assert(valid_utf8(t[0]));
    assert forall|k: int| 0 <= k < tail.len() implies free_of(#[trigger] tail[k], COMMA)
        && valid_utf8(tail[k]) by {
        assert(tail[k] == t[k + 2]);
    }
    lemma_join_valid(tail, COMMA);
    lemma_split_join(tail, COMMA);
    if free_of(data, PIPE) {
        lemma_split_keeps_free(data, COMMA, PIPE);
        assert forall|k: int| 0 <= k < tail.len() implies free_of(#[trigger] tail[k], PIPE) by {
            assert(tail[k] == t[k + 2]);
        }
        lemma_join_free(tail, COMMA, PIPE);
    }
}

/// Reads an action.
pub fn action_from_bytes(text: &[u8]) -> (action: Option<Action>)
    ensures
        action == parse_action(text@),
{
    proof {
        reveal_strlit("create");
        reveal_strlit("delay");
        reveal_strlit("prepone");
        reveal_strlit("delete");
    }
    if is_word(text, "create") {
        Some(Action::Create)
    } else if is_word(text, "delay") {
        Some(Action::Delay)
    } else if is_word(text, "prepone") {
        Some(Action::Prepone)
    } else if is_word(text, "delete") {
        Some(Action::Delete)
    } else {
        None
    }
}

/// A payload that passed every check.
#[derive(Debug)]
pub struct StatusPayload {
    name: Vec<u8>,
    action: Action,
    status_string: Vec<u8>,
}

impl View for StatusPayload {
    type V = PayloadView;

    closed spec fn view(&self) -> PayloadView {
        PayloadView {
            name: self.name@,
            action: self.action,
            status_string: self.status_string@,
        }
    }
}

impl StatusPayload {
    /// Reads a payload, or says which check it fails.
    pub fn new(payload_data: &[u8]) -> (payload: Result<StatusPayload, ApplyError>)
        ensures
            match parse_payload(payload_data@) {
                Ok(v) => payload matches Ok(p) && p@ == v,
                Err(e) => payload matches Err(x) && x == e,
            },
    {
        if !is_utf8(payload_data) {
            return Err(ApplyError::InvalidSerialization(Corrupted::Payload));
        }
        let items = split_bytes(payload_data, COMMA);
        if items.len() < PAYLOAD_ARITY {
            return Err(ApplyError::InvalidTransaction(Rejection::PayloadArity));
        }
        if items[0].len() == 0 {
            return Err(ApplyError::InvalidTransaction(Rejection::NameRequired));
        }
        if items[1].len() == 0 {
            return Err(ApplyError::InvalidTransaction(Rejection::ActionRequired));
        }
        if contains_byte(items[0].as_slice(), PIPE) {
            return Err(ApplyError::InvalidTransaction(Rejection::NameHasPipe));
        }
        let action = match action_from_bytes(items[1].as_slice()) {
            Some(action) => action,
            None => {
                return Err(ApplyError::InvalidTransaction(Rejection::InvalidAction));
            },
        };
        Ok(
            StatusPayload {
                name: copy_bytes(items[0].as_slice()),
                action,
                status_string: join_from(&items, 2, COMMA),
            },
        )
    }

    /// The name of the record that the transaction is about.
    pub fn get_name(&self) -> (name: &[u8])
        ensures
            name@ == self@.name,
    {
        self.name.as_slice()
    }

    /// What the transaction asks for.
    pub fn get_action(&self) -> (action: Action)
        ensures
            action == self@.action,
    {
        self.action
    }

    /// The update that the transaction carries: the payload without its name
    /// and action.
    pub fn get_status_string(&self) -> (update: &[u8])
        ensures
            update@ == self@.status_string,
    {
        self.status_string.as_slice()
    }
}

} // verus!
