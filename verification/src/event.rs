//! State-change events: what the ledger reports of each committed batch.

use vstd::prelude::*;

verus! {

/// One change to the ledger's state.
#[derive(Debug)]
pub enum StateChange {
    /// An entry was written.
    Put { key: Vec<u8>, value: Vec<u8> },
    /// An entry was removed.
    Delete { key: Vec<u8> },
    /// A change of a kind that this library does not know.
    Other,
}

/// Abstract value of a [`StateChange`].
pub enum ChangeView {
    Put { key: Seq<u8>, value: Seq<u8> },
    Delete { key: Seq<u8> },
    Other,
}

impl View for StateChange {
    type V = ChangeView;

    open spec fn view(&self) -> ChangeView {
        match self {
            StateChange::Put { key, value } => ChangeView::Put { key: key@, value: value@ },
            StateChange::Delete { key } => ChangeView::Delete { key: key@ },
            StateChange::Other => ChangeView::Other,
        }
    }
}

/// The changes of one committed batch, under the batch's place in the
/// circuit's order of events.
#[derive(Debug)]
pub struct StateChangeEvent {
    /// An opaque token; events of one circuit arrive in the order of their
    /// tokens.
    pub id: Vec<u8>,
    /// The changes, in the order in which they were made.
    pub state_changes: Vec<StateChange>,
}

/// Abstract value of a [`StateChangeEvent`].
pub struct EventView {
    pub id: Seq<u8>,
    pub state_changes: Seq<ChangeView>,
}

/// The abstract values of a list of changes.
pub open spec fn change_views(changes: Seq<StateChange>) -> Seq<ChangeView> {
    changes.map_values(|c: StateChange| c@)
}

impl View for StateChangeEvent {
    type V = EventView;

    open spec fn view(&self) -> EventView {
        EventView { id: self.id@, state_changes: change_views(self.state_changes@) }
    }
}

} // verus!
