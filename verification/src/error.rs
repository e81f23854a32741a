//! Why a transaction is turned down.

use vstd::prelude::*;

verus! {

/// A rule that a transaction broke. None of these can succeed on a retry.
#[derive(Clone, Copy, Debug, PartialEq, Eq, Structural)]
pub enum Rejection {
    /// The payload has fewer comma-separated fields than its family asks for.
    PayloadArity,
    /// The payload names no entity.
    NameRequired,
    /// The payload names no action.
    ActionRequired,
    /// The entity's name holds a pipe, which would break bucket framing.
    NameHasPipe,
    /// The action is none of the family's verbs.
    InvalidAction,
    /// `create` on an entity that is already present.
    AlreadyExists,
    /// An action other than `create` on an entity that is absent.
    DoesNotExist,
    /// An update signed by someone other than the entity's first participant.
    WrongSigner,
    /// An update with fewer fields than the family asks for.
    UpdateArity,
    /// One message more than a thread can count.
    ThreadFull,
}

/// Which bytes could not be read.
#[derive(Clone, Copy, Debug, PartialEq, Eq, Structural)]
pub enum Corrupted {
    /// A transaction payload that is not UTF-8.
    Payload,
    /// A stored bucket that is not UTF-8 or holds a record of the wrong arity.
    State,
}

/// The ways in which applying a transaction fails. Either aborts the whole
/// transaction.
#[derive(Clone, Copy, Debug, PartialEq, Eq, Structural)]
pub enum ApplyError {
    /// The transaction broke a rule.
    InvalidTransaction(Rejection),
    /// Bytes that should hold text or records do not.
    InvalidSerialization(Corrupted),
}

} // verus!
