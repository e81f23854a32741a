//! The action dispatcher: what a transaction does to the record that it
//! names.
//!
//! A record is absent or present. `create` makes an absent record present,
//! `delete` makes a present record absent, and `delay` and `prepone` update a
//! present record. Every other combination is turned down, and a transaction
//! that is turned down writes nothing.

use vstd::prelude::*;
use crate::address::{family_name, get_status_prefix, prefix_of, status_address};
use crate::bucket::map_text;
use crate::bytes::{ascii, ascii_bytes, bytes_eq, copy_bytes, split, COMMA};
use crate::error::{ApplyError, Rejection};
use crate::payload::{parse_payload, Action, PayloadView, StatusPayload};
use crate::state::{
    lemma_read_bucket_sound, loaded, read_bucket, stored, written_back, StateView, StatusState,
};
use crate::status::{fresh_status, updated_status, view_of, Status, StatusView};

verus! {

/// The record once `signer` has acted on it: the first signer to act takes
/// the first free participant slot, and the first signer other than that one
/// takes the second.
pub open spec fn recorded(s: StatusView, signer: Seq<u8>) -> StatusView {
    if s.participant1.len() == 0 {
        StatusView { participant1: signer, ..s }
    } else if s.participant1 != signer && s.participant2.len() == 0 {
        StatusView { participant2: signer, ..s }
    } else {
        s
    }
}

/// What the transaction `p`, signed by `signer`, makes of a record that is
/// absent (`None`) or present: the record to store, `None` to remove it, or
/// the reason for which the transaction is turned down.
pub open spec fn transition(p: PayloadView, signer: Seq<u8>, current: Option<StatusView>) -> Result<
    Option<StatusView>,
    ApplyError,
> {
    match p.action {
        Action::Create => match current {
            None => Ok(Some(fresh_status(p.name))),
            Some(_) => Err(ApplyError::InvalidTransaction(Rejection::AlreadyExists)),
        },
        Action::Delete => match current {
            None => Err(ApplyError::InvalidTransaction(Rejection::DoesNotExist)),
            Some(_) => Ok(None),
        },
        Action::Delay | Action::Prepone => match current {
            None => Err(ApplyError::InvalidTransaction(Rejection::DoesNotExist)),
            Some(s) => {
                let r = recorded(s, signer);
                if signer != r.participant1 {
                    Err(ApplyError::InvalidTransaction(Rejection::WrongSigner))
                } else if split(p.status_string, COMMA).len() < 11 {
                    Err(ApplyError::InvalidTransaction(Rejection::UpdateArity))
                } else {
                    Ok(Some(updated_status(r, p.status_string)))
                }
            },
        },
    }
}

/// What applying the payload `data`, signed by `signer`, makes of the store
/// `v`: the outcome and the store afterwards.
///
/// A payload that fails a check leaves the store untouched. Otherwise the
/// bucket at the address of the record's name is loaded. A corrupt bucket or
/// a transaction that is turned down ends there, with nothing written. Else
/// the bucket is written back with the record stored or removed.
pub open spec fn applied(data: Seq<u8>, signer: Seq<u8>, v: StateView) -> (
    Result<(), ApplyError>,
    StateView,
) {
    match parse_payload(data) {
        Err(e) => (Err(e), v),
        Ok(p) => {
            let a = status_address(p.name);
            let after_load = loaded(v, a);
            match read_bucket(v.entries.get(a)) {
                Err(e) => (Err(e), after_load),
                Ok(m) => match transition(p, signer, m.get(p.name)) {
                    Err(e) => (Err(e), after_load),
                    Ok(Some(s)) => (
                        Ok(()),
                        stored(after_load, a, map_text::<Status>(m.insert(p.name, s))),
                    ),
                    Ok(None) => (Ok(()), written_back(after_load, a, m.remove(p.name))),
                },
            }
        },
    }
}

/// Records `signer` as a participant of `status`, where a slot is free for
/// it.
pub fn record_participant(status: &mut Status, signer: &[u8])
    ensures
        final(status)@ == recorded(old(status)@, signer@),
{
    if status.get_participant1().len() == 0 {
        status.set_participant1(signer);
    } else if !bytes_eq(status.get_participant1(), signer) && status.get_participant2().len()
        == 0 {
        status.set_participant2(signer);
    }
}

/// Decides what a transaction makes of the record that it names.
pub fn decide(payload: &StatusPayload, signer: &[u8], current: Option<Status>) -> (next: Result<
    Option<Status>,
    ApplyError,
>)
    ensures
        match transition(payload@, signer@, view_of(current)) {
            Ok(Some(v)) => next matches Ok(Some(s)) && s@ == v,
            Ok(None) => next matches Ok(None),
            Err(e) => next matches Err(x) && x == e,
        },
{
    match payload.get_action() {
        Action::Create => match current {
            None => Ok(Some(Status::new(copy_bytes(payload.get_name())))),
            Some(_) => Err(ApplyError::InvalidTransaction(Rejection::AlreadyExists)),
        },
        Action::Delete => match current {
            None => Err(ApplyError::InvalidTransaction(Rejection::DoesNotExist)),
            Some(_) => Ok(None),
        },
        Action::Delay | Action::Prepone => match current {
            None => Err(ApplyError::InvalidTransaction(Rejection::DoesNotExist)),
            Some(status) => {
                let mut s = status;
                record_participant(&mut s, signer);
                match s.update_status(payload.get_status_string(), signer) {
                    Ok(_) => Ok(Some(s)),
                    Err(e) => Err(e),
                }
            },
        },
    }
}

/// The transaction handler of the status family.
pub struct StatusTransactionHandler {
    family_name: Vec<u8>,
    family_versions: Vec<Vec<u8>>,
    namespaces: Vec<Vec<u8>>,
}

impl StatusTransactionHandler {
    /// The handler of the status family, version `1.0`, whose namespace is
    /// the family's address prefix.
    pub fn new() -> (handler: StatusTransactionHandler)
        ensures
            handler.family_name_spec() == family_name(),
            handler.family_versions_spec() == seq![ascii("1.0"@)],
            handler.namespaces_spec() == seq![prefix_of(family_name())],
    {
        proof {
            reveal_strlit("sawtooth_message");
            reveal_strlit("1.0");
        }
        let mut family_versions: Vec<Vec<u8>> = Vec::new();
        family_versions.push(ascii_bytes("1.0"));
        let mut namespaces: Vec<Vec<u8>> = Vec::new();
        namespaces.push(get_status_prefix());
        let handler = StatusTransactionHandler {
            family_name: ascii_bytes("sawtooth_message"),
            family_versions,
            namespaces,
        };
        assert(handler.family_versions_spec() =~= seq![ascii("1.0"@)]);
        assert(handler.namespaces_spec() =~= seq![prefix_of(family_name())]);
        handler
    }

    /// The family's name.
    pub closed spec fn family_name_spec(&self) -> Seq<u8> {
        self.family_name@
    }

    /// The versions of the family that the handler serves.
    pub closed spec fn family_versions_spec(&self) -> Seq<Seq<u8>> {
        crate::bytes::rows(self.family_versions@)
    }

    /// The address prefixes that the handler reads and writes.
    pub closed spec fn namespaces_spec(&self) -> Seq<Seq<u8>> {
        crate::bytes::rows(self.namespaces@)
    }

    /// The family's name.
    pub fn family_name(&self) -> (name: Vec<u8>)
        ensures
            name@ == self.family_name_spec(),
    {
        copy_bytes(self.family_name.as_slice())
    }

    /// The versions of the family that the handler serves.
    pub fn family_versions(&self) -> (versions: &Vec<Vec<u8>>)
        ensures
            crate::bytes::rows(versions@) == self.family_versions_spec(),
    {
        &self.family_versions
    }

    /// The address prefixes that the handler reads and writes.
    pub fn namespaces(&self) -> (namespaces: &Vec<Vec<u8>>)
        ensures
            crate::bytes::rows(namespaces@) == self.namespaces_spec(),
    {
        &self.namespaces
    }

    /// Applies the transaction with the payload `payload`, signed by
    /// `signer`, to the store.
    pub fn apply(&self, payload: &[u8], signer: &str, state: &mut StatusState) -> (done: Result<
        (),
        ApplyError,
    >)
        requires
            old(state).wf(),
        ensures
            final(state).wf(),
            done == applied(payload@, vstd::utf8::encode_utf8(signer@), old(state)@).0,
            final(state)@ == applied(payload@, vstd::utf8::encode_utf8(signer@), old(state)@).1,
    {
        let request = match StatusPayload::new(payload) {
            Ok(p) => p,
            Err(e) => {
                return Err(e);
            },
        };
        let status = match state.get_status(request.get_name()) {
            Ok(found) => found,
            Err(e) => {
                return Err(e);
            },
        };
        let ghost a = status_address(request@.name);
        let ghost m = read_bucket(old(state)@.entries.get(a))->Ok_0;
        let ghost after_load = state@;
        proof {
            lemma_read_bucket_sound(old(state)@.entries.get(a));
            assert(after_load.cache.contains_key(a));
            assert(loaded(after_load, a) == after_load);
            assert(m.get(request@.name) == view_of(status));
        }
        let ghost who = vstd::utf8::encode_utf8(signer@);
        let ghost expected = applied(payload@, who, old(state)@);
        let signer_bytes = signer.as_bytes();
        assert(signer_bytes@ == who);
        let next = decide(&request, signer_bytes, status);
        match next {
            Err(e) => Err(e),
            Ok(Some(s)) => {
                assert(s@.name == request@.name);
                let done = state.set_status(request.get_name(), s);
                assert(done == Ok::<(), ApplyError>(()));
                done
            },
            Ok(None) => {
                let done = state.delete_status(request.get_name());
                assert(done == Ok::<(), ApplyError>(()));
                done
            },
        }
    }
}

impl Default for StatusTransactionHandler {
    fn default() -> (handler: Self)
        ensures
            handler.family_name_spec() == family_name(),
            handler.family_versions_spec() == seq![ascii("1.0"@)],
            handler.namespaces_spec() == seq![prefix_of(family_name())],
    {
        Self::new()
    }
}

} // verus!
