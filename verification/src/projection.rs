//! The projection of one circuit: what is known off the ledger of the
//! circuit, its members and services, and its status records, together with
//! the notifications raised along the way.

use vstd::prelude::*;
use crate::bytemap::ByteMap;
use crate::bytes::{ascii, ascii_bytes, bytes_eq, copy_bytes};

verus! {

/// A note to the circuit's users that something happened.
#[derive(Debug)]
pub struct Notification {
    pub notification_type: Vec<u8>,
    pub requester: Vec<u8>,
    pub requester_node_id: Vec<u8>,
    pub target: Vec<u8>,
    /// Milliseconds since the Unix epoch.
    pub created_time: u64,
    pub read: bool,
}

/// Abstract value of a [`Notification`].
pub struct NotificationView {
    pub notification_type: Seq<u8>,
    pub requester: Seq<u8>,
    pub requester_node_id: Seq<u8>,
    pub target: Seq<u8>,
    pub created_time: u64,
    pub read: bool,
}

impl View for Notification {
    type V = NotificationView;

    open spec fn view(&self) -> NotificationView {
        NotificationView {
            notification_type: self.notification_type@,
            requester: self.requester@,
            requester_node_id: self.requester_node_id@,
            target: self.target@,
            created_time: self.created_time,
            read: self.read,
        }
    }
}

/// The projected form of a status record. Times are milliseconds since the
/// Unix epoch.
#[derive(Debug)]
pub struct StatusRow {
    pub status_name: Vec<u8>,
    pub circuit_id: Vec<u8>,
    pub sender: Vec<u8>,
    pub participant_1: Vec<u8>,
    pub participant_2: Vec<u8>,
    pub eta: Option<u64>,
    pub etb: Option<u64>,
    pub ata: Option<u64>,
    pub eto: Option<u64>,
    pub ato: Option<u64>,
    pub etc: Option<u64>,
    pub etd: Option<u64>,
    pub is_bunkering: Option<bool>,
    pub bunkering_time: Option<u64>,
    pub logs: Vec<u8>,
    pub created_time: u64,
    pub updated_time: u64,
}

/// Abstract value of a [`StatusRow`].
pub struct StatusRowView {
    pub status_name: Seq<u8>,
    pub circuit_id: Seq<u8>,
    pub sender: Seq<u8>,
    pub participant_1: Seq<u8>,
    pub participant_2: Seq<u8>,
    pub eta: Option<u64>,
    pub etb: Option<u64>,
    pub ata: Option<u64>,
    pub eto: Option<u64>,
    pub ato: Option<u64>,
    pub etc: Option<u64>,
    pub etd: Option<u64>,
    pub is_bunkering: Option<bool>,
    pub bunkering_time: Option<u64>,
    pub logs: Seq<u8>,
    pub created_time: u64,
    pub updated_time: u64,
}

impl View for StatusRow {
    type V = StatusRowView;

    open spec fn view(&self) -> StatusRowView {
        StatusRowView {
            status_name: self.status_name@,
            circuit_id: self.circuit_id@,
            sender: self.sender@,
            participant_1: self.participant_1@,
            participant_2: self.participant_2@,
            eta: self.eta,
            etb: self.etb,
            ata: self.ata,
            eto: self.eto,
            ato: self.ato,
            etc: self.etc,
            etd: self.etd,
            is_bunkering: self.is_bunkering,
            bunkering_time: self.bunkering_time,
            logs: self.logs@,
            created_time: self.created_time,
            updated_time: self.updated_time,
        }
    }
}

/// A member node or a service of the circuit, with its status.
#[derive(Debug)]
pub struct Party {
    pub id: Vec<u8>,
    pub status: Vec<u8>,
    /// Milliseconds since the Unix epoch.
    pub updated_time: u64,
}

/// Abstract value of a [`Party`].
pub struct PartyView {
    pub id: Seq<u8>,
    pub status: Seq<u8>,
    pub updated_time: u64,
}

impl View for Party {
    type V = PartyView;

    open spec fn view(&self) -> PartyView {
        PartyView { id: self.id@, status: self.status@, updated_time: self.updated_time }
    }
}

/// The abstract values of a list of parties.
pub open spec fn party_views(parties: Seq<Party>) -> Seq<PartyView> {
    parties.map_values(|p: Party| p@)
}

/// The abstract values of a list of notifications.
pub open spec fn notification_views(notes: Seq<Notification>) -> Seq<NotificationView> {
    notes.map_values(|n: Notification| n@)
}

/// The abstract values of the rows of a table.
pub open spec fn row_views(rows: Map<Seq<u8>, StatusRow>) -> Map<Seq<u8>, StatusRowView> {
    rows.map_values(|r: StatusRow| r@)
}

/// A party once its circuit is active: ready parties become active, others
/// stay as they are.
pub open spec fn activated_party(p: PartyView, now: u64) -> PartyView {
    if p.status == ascii("Ready"@) {
        PartyView { status: ascii("Active"@), updated_time: now, ..p }
    } else {
        p
    }
}

/// All parties of a list once their circuit is active.
pub open spec fn activated_parties(parties: Seq<PartyView>, now: u64) -> Seq<PartyView> {
    parties.map_values(|p: PartyView| activated_party(p, now))
}

/// Abstract value of a [`Projection`].
pub struct ProjectionView {
    /// The circuit's status.
    pub status: Seq<u8>,
    /// When the circuit's status was last set.
    pub updated_time: u64,
    pub members: Seq<PartyView>,
    pub services: Seq<PartyView>,
    /// The cursor: the identifier of the last event that was applied.
    pub last_event: Seq<u8>,
    /// When the cursor was last moved.
    pub last_event_time: u64,
    /// The projected status records, by name.
    pub statuses: Map<Seq<u8>, StatusRowView>,
    /// The notifications raised so far, oldest first.
    pub notifications: Seq<NotificationView>,
}

/// The projection once the cursor stands at the event `event_id`.
pub open spec fn with_cursor(p: ProjectionView, event_id: Seq<u8>, now: u64) -> ProjectionView {
    ProjectionView { last_event: event_id, last_event_time: now, ..p }
}

/// The projection once the circuit is active: the circuit is marked active,
/// its ready members and services become active, and `note` is raised.
pub open spec fn activated(p: ProjectionView, note: NotificationView, now: u64) -> ProjectionView {
    ProjectionView {
        status: ascii("Active"@),
        updated_time: now,
        members: activated_parties(p.members, now),
        services: activated_parties(p.services, now),
        notifications: p.notifications.push(note),
        ..p
    }
}

/// The projection once `row` is stored under its name and `note` is raised.
pub open spec fn with_row(
    p: ProjectionView,
    row: StatusRowView,
    note: NotificationView,
) -> ProjectionView {
    ProjectionView {
        statuses: p.statuses.insert(row.status_name, row),
        notifications: p.notifications.push(note),
        ..p
    }
}

/// Marks the ready parties of a list as active.
fn activate_parties(parties: &mut Vec<Party>, now: u64)
    ensures
        party_views(final(parties)@) == activated_parties(party_views(old(parties)@), now),
{
    let ghost before = party_views(parties@);
    proof {
        reveal_strlit("Ready");
        reveal_strlit("Active");
    }
    let ready = ascii_bytes("Ready");
    let mut i: usize = 0;
    while i < parties.len()
        invariant
            i <= parties.len(),
            ready@ == ascii("Ready"@),
            vstd::string::is_ascii("Active"),
            party_views(parties@).len() == before.len(),
            forall|k: int|
                0 <= k < before.len() ==> #[trigger] party_views(parties@)[k] == (if k < i {
                    activated_party(before[k], now)
                } else {
                    before[k]
                }),
        decreases parties.len() - i,
    {
        let ghost mid = party_views(parties@);
        assert(mid[i as int] == before[i as int]);
        if bytes_eq(parties[i].status.as_slice(), ready.as_slice()) {
            let id = copy_bytes(parties[i].id.as_slice());
            parties.set(i, Party { id, status: ascii_bytes("Active"), updated_time: now });
            assert(party_views(parties@) =~= mid.update(
                i as int,
                activated_party(before[i as int], now),
            ));
        }
        assert forall|k: int| 0 <= k < before.len() implies #[trigger] party_views(parties@)[k]
            == (if k < i + 1 {
            activated_party(before[k], now)
        } else {
            before[k]
        }) by {
            assert(mid[k] == (if k < i {
                activated_party(before[k], now)
            } else {
                before[k]
            }));
        }
        i = i + 1;
    }
    assert(party_views(parties@) =~= activated_parties(before, now));
}

/// What is known off the ledger of one circuit.
pub struct Projection {
    status: Vec<u8>,
    updated_time: u64,
    members: Vec<Party>,
    services: Vec<Party>,
    last_event: Vec<u8>,
    last_event_time: u64,
    statuses: ByteMap<StatusRow>,
    notifications: Vec<Notification>,
}

impl View for Projection {
    type V = ProjectionView;

    closed spec fn view(&self) -> ProjectionView {
        ProjectionView {
            status: self.status@,
            updated_time: self.updated_time,
            members: party_views(self.members@),
            services: party_views(self.services@),
            last_event: self.last_event@,
            last_event_time: self.last_event_time,
            statuses: row_views(self.statuses@),
            notifications: notification_views(self.notifications@),
        }
    }
}

impl Projection {
    /// No status name is held twice.
    pub closed spec fn wf(&self) -> bool {
        self.statuses.wf()
    }

    /// The projection of a circuit of which no event was applied yet: no
    /// cursor, no status record, no notification.
    pub fn new(status: Vec<u8>, members: Vec<Party>, services: Vec<Party>, now: u64) -> (projection:
        Projection)
        ensures
            projection.wf(),
            projection@ == (ProjectionView {
                status: status@,
                updated_time: now,
                members: party_views(members@),
                services: party_views(services@),
                last_event: Seq::<u8>::empty(),
                last_event_time: now,
                statuses: Map::<Seq<u8>, StatusRowView>::empty(),
                notifications: Seq::<NotificationView>::empty(),
            }),
    {
        let projection = Projection {
            status,
            updated_time: now,
            members,
            services,
            last_event: Vec::new(),
            last_event_time: now,
            statuses: ByteMap::new(),
            notifications: Vec::new(),
        };
        assert(projection@.statuses =~= Map::<Seq<u8>, StatusRowView>::empty());
        assert(projection@.notifications =~= Seq::<NotificationView>::empty());
        projection
    }

    /// The circuit's status.
    pub fn status(&self) -> (status: &[u8])
        ensures
            status@ == self@.status,
    {
        self.status.as_slice()
    }

    /// The circuit's members.
    pub fn members(&self) -> (members: &[Party])
        ensures
            party_views(members@) == self@.members,
    {
        self.members.as_slice()
    }

    /// The circuit's services.
    pub fn services(&self) -> (services: &[Party])
        ensures
            party_views(services@) == self@.services,
    {
        self.services.as_slice()
    }

    /// The cursor: the identifier of the last event that was applied, or
    /// empty where none was.
    pub fn last_event(&self) -> (id: &[u8])
        ensures
            id@ == self@.last_event,
    {
        self.last_event.as_slice()
    }

    /// The notifications raised so far, oldest first.
    pub fn notifications(&self) -> (notes: &[Notification])
        ensures
            notification_views(notes@) == self@.notifications,
    {
        self.notifications.as_slice()
    }

    /// The projected status record `name`, if there is one.
    pub fn fetch_status(&self, name: &[u8]) -> (row: Option<&StatusRow>)
        requires
            self.wf(),
        ensures
            match row {
                Some(r) => self@.statuses.get(name@) == Some(r@),
                None => self@.statuses.get(name@) is None,
            },
    {
        self.statuses.get(name)
    }

    /// Moves the cursor to the event `event_id`.
    pub fn update_last_event(&mut self, event_id: &[u8], now: u64)
        ensures
            final(self).wf() == old(self).wf(),
            final(self)@ == with_cursor(old(self)@, event_id@, now),
    {
        self.last_event = copy_bytes(event_id);
        self.last_event_time = now;
    }

    /// Marks the circuit active, with its ready members and services, and
    /// raises `note`.
    pub fn activate(&mut self, note: Notification, now: u64)
        ensures
            final(self).wf() == old(self).wf(),
            final(self)@ == activated(old(self)@, note@, now),
    {
        proof {
            reveal_strlit("Active");
        }
        self.notifications.push(note);
        self.status = ascii_bytes("Active");
        self.updated_time = now;
        activate_parties(&mut self.members, now);
        activate_parties(&mut self.services, now);
        assert(self@.notifications =~= old(self)@.notifications.push(note@));
    }

    /// Stores `row` under its name, in place of any row of that name, and
    /// raises `note`.
    pub fn put_status(&mut self, row: StatusRow, note: Notification)
        requires
            old(self).wf(),
        ensures
            final(self).wf(),
            final(self)@ == with_row(old(self)@, row@, note@),
    {
        let name = copy_bytes(row.status_name.as_slice());
        self.statuses.insert(name, row);
        self.notifications.push(note);
        assert(self@.statuses =~= old(self)@.statuses.insert(row@.status_name, row@));
        assert(self@.notifications =~= old(self)@.notifications.push(note@));
    }
}

} // verus!
