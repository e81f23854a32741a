//! The change event projector: what each state-change event of a circuit
//! makes of the circuit's projection.
//!
//! An event is applied as a whole or not at all. Its changes are read first;
//! where one of them cannot be read, the event fails and the projection,
//! cursor included, stays as it was, so that the event can be delivered
//! again. Otherwise the cursor moves to the event and the changes take effect
//! in their order.
//!
//! Events are delivered at least once. Applying one event twice with
//! [`StatusStateDeltaProcessor::handle_state_change_event`] takes effect
//! twice: the notifications are raised again.
//! [`StatusStateDeltaProcessor::handle_new_state_change_event`] is the
//! hardened form: it skips an event whose identifier comes no later than the
//! cursor, so that a second delivery changes nothing and the cursor never
//! moves back.

use vstd::prelude::*;
use vstd::utf8::valid_utf8;
use crate::address::{family_name, get_status_prefix, prefix_of};
use crate::bucket::{all_parse, parsed};
use crate::bytes::{
    append_bytes, ascii, ascii_bytes, begins_with, bytes_eq, copy_bytes, rows, split, split_bytes,
    starts_with, PIPE,
};
use crate::event::{ChangeView, EventView, StateChange, StateChangeEvent};
use crate::order::{bytes_le, lex_le};
use crate::projection::{
    activated, with_cursor, with_row, Notification, NotificationView, Projection, ProjectionView,
    StatusRow, StatusRowView,
};
use crate::status::{parse_status, Status, StatusView};
use crate::utf8::is_utf8;

verus! {

/// The ways in which applying an event fails.
#[derive(Clone, Copy, Debug, PartialEq, Eq, Structural)]
pub enum StateDeltaError {
    /// The value written at an address of the status family is no UTF-8 text
    /// or holds a record of the wrong arity.
    StatusPayloadParseError,
}

/// One effect of an event on the projection.
#[derive(Debug)]
pub enum Step {
    /// The family's contract was set up: the circuit becomes active.
    Activate,
    /// A status record was written: its row is inserted or updated.
    Upsert(Status),
}

/// Abstract value of a [`Step`].
pub enum StepView {
    Activate,
    Upsert(StatusView),
}

impl View for Step {
    type V = StepView;

    open spec fn view(&self) -> StepView {
        match self {
            Step::Activate => StepView::Activate,
            Step::Upsert(s) => StepView::Upsert(s@),
        }
    }
}

/// The abstract values of a list of steps.
pub open spec fn step_views(steps: Seq<Step>) -> Seq<StepView> {
    steps.map_values(|s: Step| s@)
}

/// One step for each record: its upsert.
pub open spec fn upserts(records: Seq<StatusView>) -> Seq<StepView> {
    records.map_values(|s: StatusView| StepView::Upsert(s))
}

/// Abstract value of a [`StatusStateDeltaProcessor`].
pub struct ProcessorView {
    pub circuit_id: Seq<u8>,
    pub node_id: Seq<u8>,
    pub requester: Seq<u8>,
    /// The address at which the family's contract is stored once it is set
    /// up.
    pub contract_address: Seq<u8>,
    /// The namespace of the family's records.
    pub prefix: Seq<u8>,
}

/// A notification of the kind `kind`, raised at `now` for the circuit's
/// requester.
pub open spec fn new_notification(cfg: ProcessorView, kind: Seq<u8>, now: u64) -> NotificationView {
    NotificationView {
        notification_type: kind,
        requester: cfg.requester,
        requester_node_id: cfg.node_id,
        target: cfg.circuit_id,
        created_time: now,
        read: false,
    }
}

/// The kind of the notification that goes with the upsert of the record
/// `name`: `new_status_created:` and the name where a row of that name
/// exists, `status_updated:` and the name where none does.
pub open spec fn upsert_kind(existed: bool, name: Seq<u8>) -> Seq<u8> {
    if existed {
        ascii("new_status_created:"@) + name
    } else {
        ascii("status_updated:"@) + name
    }
}

/// The row that the record `s` is projected to. Name, sender, second
/// participant, times, bunkering and log are the record's; the first
/// participant is not projected and stays empty; `created` is when the row
/// first came to be and `now` is when it was last written.
pub open spec fn projected_row(
    cfg: ProcessorView,
    s: StatusView,
    created: u64,
    now: u64,
) -> StatusRowView {
    StatusRowView {
        status_name: s.name,
        circuit_id: cfg.circuit_id,
        sender: s.sender,
        participant_1: Seq::empty(),
        participant_2: s.participant2,
        eta: s.eta,
        etb: s.etb,
        ata: s.ata,
        eto: s.eto,
        ato: s.ato,
        etc: s.etc,
        etd: s.etd,
        is_bunkering: s.is_bunkering,
        bunkering_time: s.bunkering_time,
        logs: s.logs,
        created_time: created,
        updated_time: now,
    }
}

/// When the row of a record first came to be: what the existing row says, or
/// now where there is none.
pub open spec fn created_time(existing: Option<StatusRowView>, now: u64) -> u64 {
    match existing {
        Some(row) => row.created_time,
        None => now,
    }
}

/// The projection once the record `s` is upserted: its row replaces the row
/// of that name, keeping that row's time of creation, or is inserted where
/// there is none; and a notification says which of the two happened.
pub open spec fn upserted(
    p: ProjectionView,
    cfg: ProcessorView,
    s: StatusView,
    now: u64,
) -> ProjectionView {
    let existing = p.statuses.get(s.name);
    with_row(
        p,
        projected_row(cfg, s, created_time(existing, now), now),
        new_notification(cfg, upsert_kind(existing is Some, s.name), now),
    )
}

/// The projection once one step has taken effect.
pub open spec fn step_applied(
    p: ProjectionView,
    cfg: ProcessorView,
    step: StepView,
    now: u64,
) -> ProjectionView {
    match step {
        StepView::Activate => activated(
            p,
            new_notification(cfg, ascii("circuit_active"@), now),
            now,
        ),
        StepView::Upsert(s) => upserted(p, cfg, s, now),
    }
}

/// The projection once the steps have taken effect, in their order.
pub open spec fn steps_applied(
    p: ProjectionView,
    cfg: ProcessorView,
    steps: Seq<StepView>,
    now: u64,
) -> ProjectionView
    decreases steps.len(),
{
    if steps.len() == 0 {
        p
    } else {
        step_applied(steps_applied(p, cfg, steps.drop_last(), now), cfg, steps.last(), now)
    }
}

/// The steps that one change calls for.
///
/// A write at the contract's address activates the circuit. A write at any
/// other address in the family's namespace carries a bucket: each of its
/// pipe-separated records is upserted, in the order in which they stand; a
/// value that is no UTF-8 text, or in which some record has too few fields,
/// is an error. Removals, writes elsewhere and changes of unknown kinds call
/// for nothing.
pub open spec fn planned_change(cfg: ProcessorView, change: ChangeView) -> Result<
    Seq<StepView>,
    StateDeltaError,
> {
    match change {
        ChangeView::Put { key, value } => if key == cfg.contract_address {
            Ok(seq![StepView::Activate])
        } else if begins_with(key, cfg.prefix) {
            if valid_utf8(value) && all_parse::<Status>(split(value, PIPE)) {
                Ok(upserts(parsed::<Status>(split(value, PIPE))))
            } else {
                Err(StateDeltaError::StatusPayloadParseError)
            }
        } else {
            Ok(Seq::empty())
        },
        ChangeView::Delete { key } => Ok(Seq::empty()),
        ChangeView::Other => Ok(Seq::empty()),
    }
}

/// The steps that a list of changes calls for, in the order of the changes,
/// or the error of the first change that cannot be read.
pub open spec fn planned(cfg: ProcessorView, changes: Seq<ChangeView>) -> Result<
    Seq<StepView>,
    StateDeltaError,
>
    decreases changes.len(),
{
    if changes.len() == 0 {
        Ok(Seq::empty())
    } else {
        match planned(cfg, changes.drop_last()) {
            Err(e) => Err(e),
            Ok(steps) => match planned_change(cfg, changes.last()) {
                Err(e) => Err(e),
                Ok(more) => Ok(steps + more),
            },
        }
    }
}

/// What applying an event makes of the projection: the cursor moves to the
/// event and the steps of its changes take effect, or, where a change cannot
/// be read, nothing happens at all.
pub open spec fn event_applied(
    p: ProjectionView,
    cfg: ProcessorView,
    event: EventView,
    now: u64,
) -> Result<ProjectionView, StateDeltaError> {
    match planned(cfg, event.state_changes) {
        Err(e) => Err(e),
        Ok(steps) => Ok(steps_applied(with_cursor(p, event.id, now), cfg, steps, now)),
    }
}

/// The event was delivered before: a cursor stands, and the event's
/// identifier comes no later than it in the order of byte strings.
pub open spec fn seen(p: ProjectionView, event: EventView) -> bool {
    p.last_event.len() > 0 && lex_le(event.id, p.last_event)
}

/// What applying an event makes of the projection where events that were
/// delivered before are skipped.
pub open spec fn new_event_applied(
    p: ProjectionView,
    cfg: ProcessorView,
    event: EventView,
    now: u64,
) -> Result<ProjectionView, StateDeltaError> {
    if seen(p, event) {
        Ok(p)
    } else {
        event_applied(p, cfg, event, now)
    }
}

/// Applies the state-change events of one circuit to its projection.
pub struct StatusStateDeltaProcessor {
    circuit_id: Vec<u8>,
    node_id: Vec<u8>,
    requester: Vec<u8>,
    contract_address: Vec<u8>,
    prefix: Vec<u8>,
}

impl View for StatusStateDeltaProcessor {
    type V = ProcessorView;

    closed spec fn view(&self) -> ProcessorView {
        ProcessorView {
            circuit_id: self.circuit_id@,
            node_id: self.node_id@,
            requester: self.requester@,
            contract_address: self.contract_address@,
            prefix: self.prefix@,
        }
    }
}

impl StatusStateDeltaProcessor {
    /// The processor of the circuit `circuit_id`, on behalf of `requester` at
    /// the node `node_id`. The family's contract is set up once something is
    /// written at `contract_address`; the family's records live under the
    /// family's address prefix.
    pub fn new(
        circuit_id: &[u8],
        node_id: &[u8],
        requester: &[u8],
        contract_address: &[u8],
    ) -> (processor: StatusStateDeltaProcessor)
        ensures
            processor@ == (ProcessorView {
                circuit_id: circuit_id@,
                node_id: node_id@,
                requester: requester@,
                contract_address: contract_address@,
                prefix: prefix_of(family_name()),
            }),
    {
        StatusStateDeltaProcessor {
            circuit_id: copy_bytes(circuit_id),
            node_id: copy_bytes(node_id),
            requester: copy_bytes(requester),
            contract_address: copy_bytes(contract_address),
            prefix: get_status_prefix(),
        }
    }

    /// Makes a notification of the kind `notification_type`.
    pub fn create_new_notification(&self, notification_type: Vec<u8>, now: u64) -> (note:
        Notification)
        ensures
            note@ == new_notification(self@, notification_type@, now),
    {
        Notification {
            notification_type,
            requester: copy_bytes(self.requester.as_slice()),
            requester_node_id: copy_bytes(self.node_id.as_slice()),
            target: copy_bytes(self.circuit_id.as_slice()),
            created_time: now,
            read: false,
        }
    }

    /// Makes the row and the notification for the upsert of `status`, given
    /// the row of that name that exists, if one does.
    pub fn project_status(
        &self,
        existing: Option<&StatusRow>,
        status: &Status,
        now: u64,
    ) -> (made: (StatusRow, Notification))
        ensures
            made.0@ == projected_row(
                self@,
                status@,
                created_time(
                    match existing {
                        Some(row) => Some(row@),
                        None => None,
                    },
                    now,
                ),
                now,
            ),
            made.1@ == new_notification(self@, upsert_kind(existing is Some, status@.name), now),
    {
        proof {
            reveal_strlit("new_status_created:");
            reveal_strlit("status_updated:");
        }
        let (created, mut kind) = match existing {
            Some(row) => (row.created_time, ascii_bytes("new_status_created:")),
            None => (now, ascii_bytes("status_updated:")),
        };
        append_bytes(&mut kind, status.get_name());
        let row = StatusRow {
            status_name: copy_bytes(status.get_name()),
            circuit_id: copy_bytes(self.circuit_id.as_slice()),
            sender: copy_bytes(status.get_sender()),
            participant_1: Vec::new(),
            participant_2: copy_bytes(status.get_participant2()),
            eta: status.get_eta(),
            etb: status.get_etb(),
            ata: status.get_ata(),
            eto: status.get_eto(),
            ato: status.get_ato(),
            etc: status.get_etc(),
            etd: status.get_etd(),
            is_bunkering: status.get_is_bunkering(),
            bunkering_time: status.get_bunkering_time(),
            logs: copy_bytes(status.get_logs()),
            created_time: created,
            updated_time: now,
        };
        (row, self.create_new_notification(kind, now))
    }

    /// Reads the steps that one change calls for.
    #[verifier::loop_isolation(false)]
    pub fn plan_change(&self, change: &StateChange) -> (steps: Result<Vec<Step>, StateDeltaError>)
        ensures
            match planned_change(self@, change@) {
                Ok(v) => steps matches Ok(s) && step_views(s@) == v,
                Err(e) => steps matches Err(x) && x == e,
            },
    {
        let mut steps: Vec<Step> = Vec::new();
        match change {
            StateChange::Put { key, value } => {
                if bytes_eq(key.as_slice(), self.contract_address.as_slice()) {
                    steps.push(Step::Activate);
                    assert(step_views(steps@) =~= seq![StepView::Activate]);
                } else if starts_with(key.as_slice(), self.prefix.as_slice()) {
                    if !is_utf8(value.as_slice()) {
                        return Err(StateDeltaError::StatusPayloadParseError);
                    }
                    let pieces = split_bytes(value.as_slice(), PIPE);
                    let ghost p = rows(pieces@);
                    let mut i: usize = 0;
                    assert(step_views(steps@) =~= upserts(parsed::<Status>(p.take(0))));
                    while i < pieces.len()
                        invariant
                            i <= pieces.len(),
                            p == rows(pieces@),
                            all_parse::<Status>(p.take(i as int)),
                            step_views(steps@) == upserts(parsed::<Status>(p.take(i as int))),
                        decreases pieces.len() - i,
                    {
                        match Status::from_bytes(pieces[i].as_slice()) {
                            Some(status) => {
                                proof {
                                    let done = p.take(i as int);
                                    let next = p.take(i + 1);
                                    assert(next =~= done.push(p[i as int]));
                                    assert forall|k: int| 0 <= k < next.len() implies parse_status(
                                        #[trigger] next[k],
                                    ) is Some by {
                                        if k < i {
                                            assert(done[k] == next[k]);
                                        }
                                    }
                                    assert(upserts(parsed::<Status>(next)) =~= upserts(
                                        parsed::<Status>(done),
                                    ).push(StepView::Upsert(status@)));
                                }
                                let ghost before = step_views(steps@);
                                steps.push(Step::Upsert(status));
                                assert(step_views(steps@) =~= before.push(
                                    StepView::Upsert(status@),
                                ));
                            },
                            None => {
                                assert(parse_status(p[i as int]) is None);
                                assert(!all_parse::<Status>(split(value@, PIPE)));
                                return Err(StateDeltaError::StatusPayloadParseError);
                            },
                        }
                        i = i + 1;
                    }
                    assert(p.take(i as int) =~= p);
                } else {
                    assert(step_views(steps@) =~= Seq::<StepView>::empty());
                }
            },
            StateChange::Delete { key } => {
                assert(step_views(steps@) =~= Seq::<StepView>::empty());
            },
            StateChange::Other => {
                assert(step_views(steps@) =~= Seq::<StepView>::empty());
            },
        }
        Ok(steps)
    }

    /// Reads the steps that the changes of an event call for, or gives the
    /// error of the first change that cannot be read.
    pub fn plan_event(&self, change_event: &StateChangeEvent) -> (steps: Result<
        Vec<Step>,
        StateDeltaError,
    >)
        ensures
            match planned(self@, change_event@.state_changes) {
                Ok(v) => steps matches Ok(s) && step_views(s@) == v,
                Err(e) => steps matches Err(x) && x == e,
            },
    {
        let mut steps: Vec<Step> = Vec::new();
        let ghost changes = change_event@.state_changes;
        let mut i: usize = 0;
        assert(step_views(steps@) =~= Seq::<StepView>::empty());
        assert(changes.take(0) =~= Seq::<ChangeView>::empty());
        while i < change_event.state_changes.len()
            invariant
                i <= change_event.state_changes.len(),
                changes == change_event@.state_changes,
                planned(self@, changes.take(i as int)) == Ok::<Seq<StepView>, StateDeltaError>(
                    step_views(steps@),
                ),
            decreases change_event.state_changes.len() - i,
        {
            proof {
                assert(changes.take(i + 1).drop_last() =~= changes.take(i as int));
                assert(changes.take(i + 1).last() == change_event.state_changes@[i as int]@);
            }
            match self.plan_change(&change_event.state_changes[i]) {
                Ok(mut more) => {
                    let ghost before = step_views(steps@);
                    let ghost added = step_views(more@);
                    steps.append(&mut more);
                    assert(step_views(steps@) =~= before + added);
                },
                Err(e) => {
                    proof {
                        lemma_planned_prefix_error(self@, changes, i + 1);
                    }
                    return Err(e);
                },
            }
            i = i + 1;
        }
        assert(changes.take(i as int) =~= changes);
        Ok(steps)
    }

    /// Lets one step take effect on the projection.
    pub fn apply_step(&self, projection: &mut Projection, step: &Step, now: u64)
        requires
            old(projection).wf(),
        ensures
            final(projection).wf(),
            final(projection)@ == step_applied(old(projection)@, self@, step@, now),
    {
        match step {
            Step::Activate => {
                proof {
                    reveal_strlit("circuit_active");
                }
                let note = self.create_new_notification(ascii_bytes("circuit_active"), now);
                projection.activate(note, now);
            },
            Step::Upsert(status) => {
                let (row, note) = self.project_status(
                    projection.fetch_status(status.get_name()),
                    status,
                    now,
                );
                projection.put_status(row, note);
            },
        }
    }

    /// Lets the steps of one change take effect on the projection, or fails,
    /// and leaves the projection as it was, where the change cannot be read.
    pub fn handle_state_change(
        &self,
        projection: &mut Projection,
        change: &StateChange,
        now: u64,
    ) -> (done: Result<(), StateDeltaError>)
        requires
            old(projection).wf(),
        ensures
            final(projection).wf(),
            match planned_change(self@, change@) {
                Ok(steps) => done == Ok::<(), StateDeltaError>(()) && final(projection)@
                    == steps_applied(old(projection)@, self@, steps, now),
                Err(e) => done == Err::<(), StateDeltaError>(e) && final(projection)@ == old(
                    projection,
                )@,
            },
    {
        let steps = match self.plan_change(change) {
            Ok(steps) => steps,
            Err(e) => {
                return Err(e);
            },
        };
        self.apply_steps(projection, &steps, now);
        Ok(())
    }

    /// Lets the steps take effect on the projection, in their order.
    pub fn apply_steps(&self, projection: &mut Projection, steps: &Vec<Step>, now: u64)
        requires
            old(projection).wf(),
        ensures
            final(projection).wf(),
            final(projection)@ == steps_applied(old(projection)@, self@, step_views(steps@), now),
    {
        let ghost all = step_views(steps@);
        let mut i: usize = 0;
        assert(all.take(0) =~= Seq::<StepView>::empty());
        while i < steps.len()
            invariant
                i <= steps.len(),
                all == step_views(steps@),
                projection.wf(),
                projection@ == steps_applied(old(projection)@, self@, all.take(i as int), now),
            decreases steps.len() - i,
        {
            proof {
                assert(all.take(i + 1).drop_last() =~= all.take(i as int));
                assert(all.take(i + 1).last() == steps@[i as int]@);
            }
            self.apply_step(projection, &steps[i], now);
            i = i + 1;
        }
        assert(all.take(i as int) =~= all);
    }

    /// Applies one event to the projection.
    ///
    /// The event takes effect as a whole: the cursor moves to it and all its
    /// changes are applied. Where one of its changes cannot be read, the
    /// event fails and the projection stays as it was, cursor included.
    pub fn handle_state_change_event(
        &self,
        projection: &mut Projection,
        change_event: &StateChangeEvent,
        now: u64,
    ) -> (done: Result<(), StateDeltaError>)
        requires
            old(projection).wf(),
        ensures
            final(projection).wf(),
            match event_applied(old(projection)@, self@, change_event@, now) {
                Ok(v) => done == Ok::<(), StateDeltaError>(()) && final(projection)@ == v,
                Err(e) => done == Err::<(), StateDeltaError>(e) && final(projection)@ == old(
                    projection,
                )@,
            },
    {
        let steps = match self.plan_event(change_event) {
            Ok(steps) => steps,
            Err(e) => {
                return Err(e);
            },
        };
        projection.update_last_event(change_event.id.as_slice(), now);
        self.apply_steps(projection, &steps, now);
        Ok(())
    }
}

impl StatusStateDeltaProcessor {
    /// Applies one event to the projection unless it was delivered before,
    /// and tells whether it was applied.
    ///
    /// An event whose identifier comes no later than the cursor is skipped:
    /// nothing changes. Any other event is applied as by
    /// [`Self::handle_state_change_event`].
    pub fn handle_new_state_change_event(
        &self,
        projection: &mut Projection,
        change_event: &StateChangeEvent,
        now: u64,
    ) -> (done: Result<bool, StateDeltaError>)
        requires
            old(projection).wf(),
        ensures
            final(projection).wf(),
            match new_event_applied(old(projection)@, self@, change_event@, now) {
                Ok(v) => done == Ok::<bool, StateDeltaError>(!seen(old(projection)@, change_event@))
                    && final(projection)@ == v,
                Err(e) => done == Err::<bool, StateDeltaError>(e) && final(projection)@ == old(
                    projection,
                )@,
            },
    {
        if projection.last_event().len() > 0 && bytes_le(
            change_event.id.as_slice(),
            projection.last_event(),
        ) {
            return Ok(false);
        }
        match self.handle_state_change_event(projection, change_event, now) {
            Ok(_) => Ok(true),
            Err(e) => Err(e),
        }
    }
}

/// Steps add to the projection and take nothing away: the cursor stays, every
/// row stays under its name, though its content may be replaced, and every
/// notification stays in its place.
pub proof fn lemma_steps_add(p: ProjectionView, cfg: ProcessorView, steps: Seq<StepView>, now: u64)
    ensures
        steps_applied(p, cfg, steps, now).last_event == p.last_event,
        steps_applied(p, cfg, steps, now).last_event_time == p.last_event_time,
        forall|name: Seq<u8>| #[trigger]
            p.statuses.contains_key(name) ==> steps_applied(
                p,
                cfg,
                steps,
                now,
            ).statuses.contains_key(name),
        p.notifications.len() <= steps_applied(p, cfg, steps, now).notifications.len(),
        steps_applied(p, cfg, steps, now).notifications.take(p.notifications.len() as int)
            == p.notifications,
    decreases steps.len(),
{
    if steps.len() == 0 {
        assert(p.notifications.take(p.notifications.len() as int) =~= p.notifications);
    } else {
        lemma_steps_add(p, cfg, steps.drop_last(), now);
        let before = steps_applied(p, cfg, steps.drop_last(), now);
        let after = step_applied(before, cfg, steps.last(), now);
        assert(after.notifications.take(p.notifications.len() as int)
            =~= before.notifications.take(p.notifications.len() as int));
    }
}

/// Where a prefix of the changes cannot be read, the whole list cannot, and
/// for the same reason.
pub proof fn lemma_planned_prefix_error(cfg: ProcessorView, changes: Seq<ChangeView>, n: int)
    requires
        0 <= n <= changes.len(),
        planned(cfg, changes.take(n)) is Err,
    ensures
        planned(cfg, changes) == planned(cfg, changes.take(n)),
    decreases changes.len() - n,
{
    if n == changes.len() {
        assert(changes.take(n) =~= changes);
    } else {
        assert(changes.take(n + 1).drop_last() =~= changes.take(n));
        lemma_planned_prefix_error(cfg, changes, n + 1);
    }
}

} // verus!
