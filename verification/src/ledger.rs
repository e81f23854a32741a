//! The ledger as one transaction sees it: the entries at the addresses that
//! the transaction touches, and a journal of every request made.
//!
//! A transaction processor fills a [`Ledger`] with what the validator holds at
//! the addresses in question, lets the transaction run against it, and then
//! sends the journal's writes to the validator in order.

use vstd::prelude::*;
use crate::bytemap::ByteMap;
use crate::bytes::copy_bytes;

verus! {

/// A request made of the ledger.
#[derive(Debug)]
pub enum LedgerRequest {
    /// Read the entry at an address.
    Get { address: Vec<u8> },
    /// Write an entry at an address.
    Put { address: Vec<u8>, data: Vec<u8> },
    /// Remove the entry at an address.
    Delete { address: Vec<u8> },
}

/// Abstract value of a [`LedgerRequest`].
pub enum RequestView {
    Get { address: Seq<u8> },
    Put { address: Seq<u8>, data: Seq<u8> },
    Delete { address: Seq<u8> },
}

impl View for LedgerRequest {
    type V = RequestView;

    open spec fn view(&self) -> RequestView {
        match self {
            LedgerRequest::Get { address } => RequestView::Get { address: address@ },
            LedgerRequest::Put { address, data } => RequestView::Put {
                address: address@,
                data: data@,
            },
            LedgerRequest::Delete { address } => RequestView::Delete { address: address@ },
        }
    }
}

/// Abstract value of a [`Ledger`].
pub struct LedgerView {
    /// What is stored, by address.
    pub entries: Map<Seq<u8>, Seq<u8>>,
    /// The requests made so far, oldest first.
    pub journal: Seq<RequestView>,
}

/// The contents of stored entries.
pub open spec fn entry_views(m: Map<Seq<u8>, Vec<u8>>) -> Map<Seq<u8>, Seq<u8>> {
    m.map_values(|v: Vec<u8>| v@)
}

/// The abstract values of a list of requests.
pub open spec fn request_views(requests: Seq<LedgerRequest>) -> Seq<RequestView> {
    requests.map_values(|r: LedgerRequest| r@)
}

/// Ledger entries by address, with a journal of the requests made.
pub struct Ledger {
    entries: ByteMap<Vec<u8>>,
    journal: Vec<LedgerRequest>,
}

impl View for Ledger {
    type V = LedgerView;

    closed spec fn view(&self) -> LedgerView {
        LedgerView { entries: entry_views(self.entries@), journal: request_views(self.journal@) }
    }
}

impl Ledger {
    /// No address is held twice.
    pub closed spec fn wf(&self) -> bool {
        self.entries.wf()
    }

    /// A ledger without entries, of which nothing was asked yet.
    pub fn new() -> (ledger: Ledger)
        ensures
            ledger.wf(),
            ledger@.entries == Map::<Seq<u8>, Seq<u8>>::empty(),
            ledger@.journal == Seq::<RequestView>::empty(),
    {
        let ledger = Ledger { entries: ByteMap::new(), journal: Vec::new() };
        assert(ledger@.entries =~= Map::<Seq<u8>, Seq<u8>>::empty());
        assert(ledger@.journal =~= Seq::<RequestView>::empty());
        ledger
    }

    /// Puts in place what the ledger holds at `address` before the
    /// transaction runs. This is no request and leaves the journal as it is.
    pub fn preload(&mut self, address: Vec<u8>, data: Vec<u8>)
        requires
            old(self).wf(),
        ensures
            final(self).wf(),
            final(self)@.entries == old(self)@.entries.insert(address@, data@),
            final(self)@.journal == old(self)@.journal,
    {
        self.entries.insert(address, data);
        assert(self@.entries =~= old(self)@.entries.insert(address@, data@));
    }

    /// Looks at the entry at `address` without asking the ledger for it: the
    /// journal stays as it is.
    pub fn peek(&self, address: &[u8]) -> (data: Option<&[u8]>)
        requires
            self.wf(),
        ensures
            match data {
                Some(bytes) => self@.entries.get(address@) == Some(bytes@),
                None => self@.entries.get(address@) is None,
            },
    {
        match self.entries.get(address) {
            Some(bytes) => Some(bytes.as_slice()),
            None => None,
        }
    }

    /// Reads the entry at `address`.
    pub fn get_state_entry(&mut self, address: &[u8]) -> (data: Option<Vec<u8>>)
        requires
            old(self).wf(),
        ensures
            final(self).wf(),
            final(self)@.entries == old(self)@.entries,
            final(self)@.journal == old(self)@.journal.push(RequestView::Get { address: address@ }),
            match data {
                Some(bytes) => old(self)@.entries.get(address@) == Some(bytes@),
                None => old(self)@.entries.get(address@) is None,
            },
    {
        self.journal.push(LedgerRequest::Get { address: copy_bytes(address) });
        assert(self@.journal =~= old(self)@.journal.push(RequestView::Get { address: address@ }));
        match self.entries.get(address) {
            Some(bytes) => Some(copy_bytes(bytes.as_slice())),
            None => None,
        }
    }

    /// Writes `data` at `address`.
    pub fn set_state_entry(&mut self, address: Vec<u8>, data: Vec<u8>)
        requires
            old(self).wf(),
        ensures
            final(self).wf(),
            final(self)@.entries == old(self)@.entries.insert(address@, data@),
            final(self)@.journal == old(self)@.journal.push(
                RequestView::Put { address: address@, data: data@ },
            ),
    {
        self.journal.push(
            LedgerRequest::Put {
                address: copy_bytes(address.as_slice()),
                data: copy_bytes(data.as_slice()),
            },
        );
        assert(self@.journal =~= old(self)@.journal.push(
            RequestView::Put { address: address@, data: data@ },
        ));
        self.entries.insert(address, data);
        assert(self@.entries =~= old(self)@.entries.insert(address@, data@));
    }

    /// Removes the entry at `address`, if there is one.
    pub fn delete_state_entry(&mut self, address: &[u8])
        requires
            old(self).wf(),
        ensures
            final(self).wf(),
            final(self)@.entries == old(self)@.entries.remove(address@),
            final(self)@.journal == old(self)@.journal.push(
                RequestView::Delete { address: address@ },
            ),
    {
        self.journal.push(LedgerRequest::Delete { address: copy_bytes(address) });
        assert(self@.journal =~= old(self)@.journal.push(
            RequestView::Delete { address: address@ },
        ));
        self.entries.remove(address);
        assert(self@.entries =~= old(self)@.entries.remove(address@));
    }

    /// The requests made so far, oldest first.
    pub fn journal(&self) -> (requests: &[LedgerRequest])
        ensures
            request_views(requests@) == self@.journal,
    {
        self.journal.as_slice()
    }
}

} // verus!
