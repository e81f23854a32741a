//! Laws: what holds of every bucket, of every transaction, of every sequence
//! of reads and writes, and of every event.
//!
//! Each law is a theorem about the functions that describe the library's
//! behaviour ([`applied`], [`stored`], [`read_bucket`], [`event_applied`] and
//! so on), and so about the library itself, whose functions are proved to
//! behave as described.

use vstd::prelude::*;
use vstd::utf8::valid_utf8;
use crate::address::status_address;
use crate::bucket::{
    as_map, bucket_is_text, bucket_text, bucket_wf, lemma_collect_listable, lemma_listable_insert,
    lemma_listable_remove, lemma_listings_agree, lemma_map_round_trip, lemma_order_independent,
    lemma_parsed_bucket_nonempty, lemma_parsed_bucket_wf, lemma_text_of_listing, listable,
    map_text, names_distinct, parse_bucket, parsed,
};
use crate::bytes::{free_of, split, COMMA, PIPE};
use crate::bytes::ascii;
use crate::error::{ApplyError, Rejection};
use crate::event::{ChangeView, EventView};
use crate::handler::{applied, recorded, transition};
use crate::payload::{lemma_payload_fields, parse_payload, Action};
use crate::projection::{activated, with_cursor, ProjectionView};
use crate::record::Record;
use crate::order::{lemma_lex_reflexive, lemma_lex_total, lex_le};
use crate::state_delta::{
    event_applied, lemma_steps_add, new_event_applied, new_notification, planned, planned_change,
    seen, steps_applied, ProcessorView, StateDeltaError, StepView,
};
use crate::state::{
    coherent, deleted, lemma_read_back, lemma_read_bucket_sound, loaded, read_bucket, stored,
    StateView,
};
use crate::status::{
    fresh_status, lemma_fresh_status, lemma_updated_status, status_is_text, status_wf,
    updated_status, Status, StatusView,
};

verus! {

/// Reading what was written for a bucket gives the bucket back, and writing
/// that again gives the same bytes.
///
/// This holds of buckets of well-formed records that are not empty: an empty
/// bucket is never written, and what would be written for it, no bytes at
/// all, does not read as a bucket.
pub proof fn law_bucket_round_trip<R: Record>(m: Map<Seq<u8>, R::V>)
    requires
        listable::<R>(m),
        bucket_wf::<R>(m),
        m != Map::<Seq<u8>, R::V>::empty(),
    ensures
        parse_bucket::<R>(map_text::<R>(m)) == Some(m),
        map_text::<R>(parse_bucket::<R>(map_text::<R>(m))->0) == map_text::<R>(m),
{
    lemma_map_round_trip::<R>(m);
}

/// The bytes written for a bucket depend on its records alone: two listings
/// of the same records, in whatever order, give the same bytes.
pub proof fn law_bytes_ignore_order<R: Record>(e1: Seq<R::V>, e2: Seq<R::V>)
    requires
        names_distinct::<R>(e1),
        names_distinct::<R>(e2),
        as_map::<R>(e1) == as_map::<R>(e2),
    ensures
        bucket_text::<R>(e1) == bucket_text::<R>(e2),
        bucket_text::<R>(e1) == map_text::<R>(as_map::<R>(e1)),
{
    lemma_listings_agree::<R>(e1, e2);
    lemma_order_independent::<R>(e1, e2);
    lemma_text_of_listing::<R>(e1);
}

/// Reading any bytes and writing what was read gives the bytes' normal form:
/// reading and writing that again changes nothing.
pub proof fn law_normal_form<R: Record>(text: Seq<u8>)
    requires
        parse_bucket::<R>(text) is Some,
    ensures
        ({
            let normal = map_text::<R>(parse_bucket::<R>(text)->0);
            &&& parse_bucket::<R>(normal) == parse_bucket::<R>(text)
            &&& map_text::<R>(parse_bucket::<R>(normal)->0) == normal
        }),
{
    lemma_parsed_bucket_wf::<R>(text);
    lemma_parsed_bucket_nonempty::<R>(text);
    lemma_collect_listable::<R>(parsed::<R>(split(text, PIPE)));
    lemma_map_round_trip::<R>(parse_bucket::<R>(text)->0);
}

/// The address of a record depends on its name alone: records that differ in
/// content only live at one address.
pub proof fn law_address_ignores_content(a: StatusView, b: StatusView)
    requires
        a.name == b.name,
    ensures
        status_address(a.name) == status_address(b.name),
{
}

/// No address is read from the ledger twice: once a bucket was loaded,
/// written or removed, loading it again asks the ledger for nothing, whether
/// the ledger holds something at the address or not.
///
/// The exception is an entry that is no UTF-8 text: loading it fails, and it
/// is not remembered.
pub proof fn law_cache_spares_ledger(v: StateView, address: Seq<u8>, data: Seq<u8>)
    ensures
        !(v.entries.get(address) matches Some(bytes) && !valid_utf8(bytes)) ==> loaded(
            loaded(v, address),
            address,
        ) == loaded(v, address),
        loaded(stored(v, address, data), address) == stored(v, address, data),
        loaded(v, address).cache.contains_key(address) ==> loaded(
            deleted(loaded(v, address), address),
            address,
        ) == deleted(loaded(v, address), address),
{
}

/// The cache never disagrees with the ledger: what it remembers of an
/// address is what the ledger holds there, through every load, write and
/// removal.
pub proof fn law_cache_agrees_with_ledger(v: StateView, address: Seq<u8>, data: Seq<u8>)
    requires
        coherent(v),
    ensures
        coherent(loaded(v, address)),
        coherent(stored(v, address, data)),
        coherent(deleted(v, address)),
{
    assert forall|a: Seq<u8>| #[trigger]
        loaded(v, address).cache.contains_key(a) implies loaded(v, address).cache[a] == loaded(
        v,
        address,
    ).entries.get(a) by {
        if a != address {
            assert(v.cache.contains_key(a));
        }
    }
    assert forall|a: Seq<u8>| #[trigger]
        stored(v, address, data).cache.contains_key(a) implies stored(v, address, data).cache[a]
        == stored(v, address, data).entries.get(a) by {
        if a != address {
            assert(v.cache.contains_key(a));
        }
    }
    assert forall|a: Seq<u8>| #[trigger]
        deleted(v, address).cache.contains_key(a) implies deleted(v, address).cache[a] == deleted(
        v,
        address,
    ).entries.get(a) by {
        if a != address {
            assert(v.cache.contains_key(a));
        }
    }
}

/// The bucket at `address` can be read.
pub open spec fn readable(v: StateView, address: Seq<u8>) -> bool {
    read_bucket(v.entries.get(address)) is Ok
}

/// The bucket at `address`, where it can be read.
pub open spec fn bucket_at(v: StateView, address: Seq<u8>) -> Map<Seq<u8>, StatusView> {
    read_bucket(v.entries.get(address))->Ok_0
}

/// The payload `data` passes every check and asks for `action`.
pub open spec fn asks(data: Seq<u8>, action: Action) -> bool {
    parse_payload(data) matches Ok(p) && p.action == action
}

/// The name of the record that the payload `data` is about.
pub open spec fn subject(data: Seq<u8>) -> Seq<u8> {
    parse_payload(data)->Ok_0.name
}

/// The address of the record that the payload `data` is about.
pub open spec fn home(data: Seq<u8>) -> Seq<u8> {
    status_address(subject(data))
}

/// The record that the payload `data` is about is on the ledger.
pub open spec fn present(data: Seq<u8>, v: StateView) -> bool {
    bucket_at(v, home(data)).contains_key(subject(data))
}

/// The record that the payload `data` is about, as the ledger holds it.
pub open spec fn held(data: Seq<u8>, v: StateView) -> StatusView {
    bucket_at(v, home(data))[subject(data)]
}

/// Storing a record in a bucket and reading the bucket again finds the
/// record, and finds every other record of the bucket as it was.
///
/// This holds of well-formed records of text: a record whose name holds a
/// comma, say, does not read back.
pub proof fn law_read_your_writes(v: StateView, address: Seq<u8>, s: StatusView)
    requires
        readable(v, address),
        status_wf(s),
        status_is_text(s),
    ensures
        ({
            let m = bucket_at(v, address);
            let after = stored(
                loaded(v, address),
                address,
                map_text::<Status>(m.insert(s.name, s)),
            );
            &&& readable(after, address)
            &&& bucket_at(after, address) == m.insert(s.name, s)
        }),
{
    let m = bucket_at(v, address);
    let m2 = m.insert(s.name, s);
    lemma_read_bucket_sound(v.entries.get(address));
    lemma_listable_insert::<Status>(m, s);
    assert(m2.contains_key(s.name));
    lemma_read_back(m2);
}

/// Two records of different names that share an address are both found
/// after each was stored by a call of its own.
///
/// This holds of well-formed records of text.
pub proof fn law_colliding_names_stay_apart(
    v: StateView,
    address: Seq<u8>,
    first: StatusView,
    second: StatusView,
)
    requires
        readable(v, address),
        first.name != second.name,
        status_wf(first),
        status_is_text(first),
        status_wf(second),
        status_is_text(second),
    ensures
        ({
            let m0 = bucket_at(v, address);
            let v1 = stored(
                loaded(v, address),
                address,
                map_text::<Status>(m0.insert(first.name, first)),
            );
            let m1 = bucket_at(v1, address);
            let v2 = stored(
                loaded(v1, address),
                address,
                map_text::<Status>(m1.insert(second.name, second)),
            );
            &&& readable(v1, address)
            &&& readable(v2, address)
            &&& bucket_at(v2, address).get(first.name) == Some(first)
            &&& bucket_at(v2, address).get(second.name) == Some(second)
        }),
{
    let m0 = bucket_at(v, address);
    law_read_your_writes(v, address, first);
    let v1 = stored(
        loaded(v, address),
        address,
        map_text::<Status>(m0.insert(first.name, first)),
    );
    law_read_your_writes(v1, address, second);
}

/// `create` on an absent record succeeds, and the record that is then found
/// has the name asked for, no participant and an empty log.
pub proof fn law_create_on_absent(data: Seq<u8>, signer: Seq<u8>, v: StateView)
    requires
        asks(data, Action::Create),
        readable(v, home(data)),
        !present(data, v),
    ensures
        ({
            let after = applied(data, signer, v).1;
            let created = fresh_status(subject(data));
            &&& applied(data, signer, v).0 == Ok::<(), ApplyError>(())
            &&& readable(after, home(data))
            &&& bucket_at(after, home(data)) == bucket_at(v, home(data)).insert(
                subject(data),
                created,
            )
            &&& created.name == subject(data)
            &&& created.participant1.len() == 0
            &&& created.participant2.len() == 0
            &&& created.logs.len() == 0
        }),
{
    lemma_payload_fields(data);
    lemma_fresh_status(subject(data));
    law_read_your_writes(v, home(data), fresh_status(subject(data)));
}

/// `create` on a present record fails as a broken rule, and writes nothing.
pub proof fn law_create_on_present(data: Seq<u8>, signer: Seq<u8>, v: StateView)
    requires
        asks(data, Action::Create),
        readable(v, home(data)),
        present(data, v),
    ensures
        applied(data, signer, v).0 == Err::<(), ApplyError>(
            ApplyError::InvalidTransaction(Rejection::AlreadyExists),
        ),
        applied(data, signer, v).1.entries == v.entries,
{
}

/// `delete` on a present record succeeds and takes the record out of its
/// bucket: where it was the last one, nothing is stored at the address any
/// more; otherwise the bucket that is then read is the old one without the
/// record.
pub proof fn law_delete_on_present(data: Seq<u8>, signer: Seq<u8>, v: StateView)
    requires
        asks(data, Action::Delete),
        readable(v, home(data)),
        present(data, v),
    ensures
        ({
            let after = applied(data, signer, v).1;
            let rest = bucket_at(v, home(data)).remove(subject(data));
            &&& applied(data, signer, v).0 == Ok::<(), ApplyError>(())
            &&& if rest == Map::<Seq<u8>, StatusView>::empty() {
                !after.entries.contains_key(home(data))
            } else {
                readable(after, home(data)) && bucket_at(after, home(data)) == rest
            }
        }),
{
    let m = bucket_at(v, home(data));
    let rest = m.remove(subject(data));
    lemma_read_bucket_sound(v.entries.get(home(data)));
    lemma_listable_remove::<Status>(m, subject(data));
    if rest != Map::<Seq<u8>, StatusView>::empty() {
        assert(bucket_wf::<Status>(rest));
        assert(bucket_is_text::<Status>(rest));
        lemma_read_back(rest);
    }
}

/// `delete` on an absent record fails as a broken rule, and writes nothing.
pub proof fn law_delete_on_absent(data: Seq<u8>, signer: Seq<u8>, v: StateView)
    requires
        asks(data, Action::Delete),
        readable(v, home(data)),
        !present(data, v),
    ensures
        applied(data, signer, v).0 == Err::<(), ApplyError>(
            ApplyError::InvalidTransaction(Rejection::DoesNotExist),
        ),
        applied(data, signer, v).1.entries == v.entries,
{
}

/// An update of an absent record fails as a broken rule, and writes nothing.
pub proof fn law_update_on_absent(data: Seq<u8>, signer: Seq<u8>, v: StateView)
    requires
        asks(data, Action::Delay) || asks(data, Action::Prepone),
        readable(v, home(data)),
        !present(data, v),
    ensures
        applied(data, signer, v).0 == Err::<(), ApplyError>(
            ApplyError::InvalidTransaction(Rejection::DoesNotExist),
        ),
        applied(data, signer, v).1.entries == v.entries,
{
}

/// An update signed by anyone but the record's first participant fails as a
/// broken rule and leaves the ledger, and so the record, as it was.
pub proof fn law_update_by_stranger(data: Seq<u8>, signer: Seq<u8>, v: StateView)
    requires
        asks(data, Action::Delay) || asks(data, Action::Prepone),
        readable(v, home(data)),
        present(data, v),
        held(data, v).participant1.len() > 0,
        held(data, v).participant1 != signer,
    ensures
        applied(data, signer, v).0 == Err::<(), ApplyError>(
            ApplyError::InvalidTransaction(Rejection::WrongSigner),
        ),
        applied(data, signer, v).1.entries == v.entries,
{
}

/// An update signed by the record's first participant, or by anyone where
/// the record has no participant yet, succeeds, and the record that is then
/// found is the old one with the signer recorded and the update applied.
///
/// This holds where neither the payload nor the signer holds a pipe and the
/// signer is a text without comma: a log entry with a pipe in it, say, is
/// written but leaves a bucket that cannot be read.
pub proof fn law_update_by_participant(data: Seq<u8>, signer: Seq<u8>, v: StateView)
    requires
        asks(data, Action::Delay) || asks(data, Action::Prepone),
        readable(v, home(data)),
        present(data, v),
        held(data, v).participant1.len() == 0 || held(data, v).participant1 == signer,
        free_of(data, PIPE),
        free_of(signer, PIPE),
        free_of(signer, COMMA),
        valid_utf8(signer),
    ensures
        ({
            let after = applied(data, signer, v).1;
            let update = parse_payload(data)->Ok_0.status_string;
            let updated = updated_status(recorded(held(data, v), signer), update);
            &&& applied(data, signer, v).0 == Ok::<(), ApplyError>(())
            &&& readable(after, home(data))
            &&& bucket_at(after, home(data)) == bucket_at(v, home(data)).insert(
                subject(data),
                updated,
            )
            &&& recorded(held(data, v), signer).participant1 == signer
        }),
{
    let p = parse_payload(data)->Ok_0;
    let a = home(data);
    let m = bucket_at(v, a);
    let current = m[p.name];
    let r = recorded(current, signer);
    lemma_payload_fields(data);
    lemma_read_bucket_sound(v.entries.get(a));
    assert(status_wf(current) && status_is_text(current) && current.name == p.name);
    assert(status_wf(r) && status_is_text(r));
    assert(split(p.status_string, COMMA).len() >= 11);
    lemma_updated_status(r, p.status_string);
    let updated = updated_status(r, p.status_string);
    assert(transition(p, signer, m.get(p.name)) == Ok::<Option<StatusView>, ApplyError>(
        Some(updated),
    ));
    law_read_your_writes(v, a, updated);
}

/// A transaction changes the ledger at the address of the record that it is
/// about and nowhere else, and a transaction that fails changes it nowhere.
pub proof fn law_one_address(data: Seq<u8>, signer: Seq<u8>, v: StateView, elsewhere: Seq<u8>)
    ensures
        parse_payload(data) is Ok && elsewhere != home(data) ==> applied(
            data,
            signer,
            v,
        ).1.entries.get(elsewhere) == v.entries.get(elsewhere),
        applied(data, signer, v).0 is Err ==> applied(data, signer, v).1.entries == v.entries,
        parse_payload(data) is Err ==> applied(data, signer, v).1 == v,
{
    if parse_payload(data) is Ok {
        let a = home(data);
        let after = applied(data, signer, v).1;
        if applied(data, signer, v).0 is Ok {
            assert(after.entries.get(elsewhere) == v.entries.get(elsewhere)
                || elsewhere == a);
        }
    }
}

/// An event that is applied moves the cursor to itself, deletes no row and
/// keeps every notification raised before; an event that fails leaves no
/// trace.
pub proof fn law_event_adds(p: ProjectionView, cfg: ProcessorView, event: EventView, now: u64)
    ensures
        match event_applied(p, cfg, event, now) {
            Ok(after) => {
                &&& after.last_event == event.id
                &&& forall|name: Seq<u8>| #[trigger]
                    p.statuses.contains_key(name) ==> after.statuses.contains_key(name)
                &&& p.notifications.len() <= after.notifications.len()
                &&& after.notifications.take(p.notifications.len() as int) == p.notifications
            },
            Err(_) => planned(cfg, event.state_changes) is Err,
        },
{
    match planned(cfg, event.state_changes) {
        Ok(steps) => {
            let start = with_cursor(p, event.id, now);
            let after = steps_applied(start, cfg, steps, now);
            lemma_steps_add(start, cfg, steps, now);
            assert(start.statuses == p.statuses);
            assert(start.notifications == p.notifications);
            assert forall|name: Seq<u8>| #[trigger]
                p.statuses.contains_key(name) implies after.statuses.contains_key(name) by {
                assert(start.statuses.contains_key(name));
            }
        },
        Err(_) => {},
    }
}

/// An event whose only change is a write at the contract's address raises
/// exactly one notification, of the kind `circuit_active`, marks the circuit
/// active and makes its ready members and services active.
pub proof fn law_genesis_event(p: ProjectionView, cfg: ProcessorView, event: EventView, now: u64)
    requires
        event.state_changes.len() == 1,
        event.state_changes[0] matches ChangeView::Put { key, .. } && key == cfg.contract_address,
    ensures
        event_applied(p, cfg, event, now) == Ok::<ProjectionView, StateDeltaError>(
            activated(
                with_cursor(p, event.id, now),
                new_notification(cfg, ascii("circuit_active"@), now),
                now,
            ),
        ),
{
    let changes = event.state_changes;
    assert(changes.drop_last() =~= Seq::<ChangeView>::empty());
    assert(planned(cfg, changes.drop_last()) == Ok::<Seq<StepView>, StateDeltaError>(Seq::empty()));
    assert(planned_change(cfg, changes.last()) == Ok::<Seq<StepView>, StateDeltaError>(
        seq![StepView::Activate],
    ));
    let steps = Seq::<StepView>::empty() + seq![StepView::Activate];
    assert(steps =~= seq![StepView::Activate]);
    assert(steps.drop_last() =~= Seq::<StepView>::empty());
    assert(steps_applied(with_cursor(p, event.id, now), cfg, steps.drop_last(), now)
        == with_cursor(p, event.id, now));
}

/// Delivering an event again changes nothing where events that were
/// delivered before are skipped: no notification is raised twice.
///
/// This holds of events with an identifier: an event whose identifier is
/// empty is never taken for one that was delivered before.
pub proof fn law_redelivery_changes_nothing(
    p: ProjectionView,
    cfg: ProcessorView,
    event: EventView,
    first: u64,
    second: u64,
)
    requires
        event.id.len() > 0,
        new_event_applied(p, cfg, event, first) is Ok,
    ensures
        new_event_applied(new_event_applied(p, cfg, event, first)->Ok_0, cfg, event, second)
            == new_event_applied(p, cfg, event, first),
{
    if !seen(p, event) {
        law_event_adds(p, cfg, event, first);
        lemma_lex_reflexive(event.id);
    }
}

/// The cursor never moves back where events that were delivered before are
/// skipped: after an event, it stands where it stood or later.
pub proof fn law_cursor_advances(p: ProjectionView, cfg: ProcessorView, event: EventView, now: u64)
    requires
        new_event_applied(p, cfg, event, now) is Ok,
    ensures
        lex_le(p.last_event, new_event_applied(p, cfg, event, now)->Ok_0.last_event),
{
    lemma_lex_reflexive(p.last_event);
    if !seen(p, event) {
        law_event_adds(p, cfg, event, now);
        lemma_lex_total(event.id, p.last_event);
    }
}

} // verus!
