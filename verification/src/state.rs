//! The entity store: reads and writes of status records through the ledger,
//! one bucket per address, with a cache that lasts for one transaction.
//!
//! The cache remembers for each address that was read or written what the
//! ledger holds there, also that it holds nothing, so that no address is read
//! from the ledger twice.

use vstd::prelude::*;
use vstd::utf8::valid_utf8;
use crate::address::{calculate_address, status_address};
use crate::bucket::{
    bucket_is_text, bucket_wf, lemma_collect_listable, lemma_listable_empty, lemma_map_round_trip,
    lemma_map_text_valid, lemma_parsed_bucket_is_text, lemma_parsed_bucket_wf, listable, map_text,
    parse_bucket, parsed, Bucket,
};
use crate::bytemap::ByteMap;
use crate::bytes::{copy_bytes, split, PIPE};
use crate::error::{ApplyError, Corrupted};
use crate::ledger::{Ledger, RequestView};
use crate::status::{Status, StatusView};
use crate::utf8::is_utf8;

verus! {

/// The contents of what the cache holds for one address.
pub open spec fn raw_view(raw: Option<Vec<u8>>) -> Option<Seq<u8>> {
    match raw {
        Some(bytes) => Some(bytes@),
        None => None,
    }
}

/// The contents of the cache.
pub open spec fn cache_views(m: Map<Seq<u8>, Option<Vec<u8>>>) -> Map<Seq<u8>, Option<Seq<u8>>> {
    m.map_values(|raw: Option<Vec<u8>>| raw_view(raw))
}

/// The bucket that the entry `raw` of the ledger stands for: none is the
/// empty bucket; bytes are a bucket where they are UTF-8 text and every
/// record in them has its arity, and are corrupt otherwise.
pub open spec fn read_bucket(raw: Option<Seq<u8>>) -> Result<Map<Seq<u8>, StatusView>, ApplyError> {
    match raw {
        None => Ok(Map::empty()),
        Some(bytes) => if valid_utf8(bytes) && parse_bucket::<Status>(bytes) is Some {
            Ok(parse_bucket::<Status>(bytes)->0)
        } else {
            Err(ApplyError::InvalidSerialization(Corrupted::State))
        },
    }
}

/// Every bucket that can be read from the ledger can be listed and holds
/// well-formed records of text only.
pub proof fn lemma_read_bucket_sound(raw: Option<Seq<u8>>)
    requires
        read_bucket(raw) is Ok,
    ensures
        listable::<Status>(read_bucket(raw)->Ok_0),
        bucket_wf::<Status>(read_bucket(raw)->Ok_0),
        bucket_is_text::<Status>(read_bucket(raw)->Ok_0),
{
    match raw {
        None => {
            lemma_listable_empty::<Status>();
        },
        Some(bytes) => {
            lemma_parsed_bucket_wf::<Status>(bytes);
            lemma_parsed_bucket_is_text::<Status>(bytes);
            lemma_collect_listable::<Status>(parsed::<Status>(split(bytes, PIPE)));
        },
    }
}

/// What was written for a bucket reads back as that bucket, provided that the
/// bucket is not empty and holds well-formed records of text only.
pub proof fn lemma_read_back(m: Map<Seq<u8>, StatusView>)
    requires
        listable::<Status>(m),
        bucket_wf::<Status>(m),
        bucket_is_text::<Status>(m),
        m != Map::<Seq<u8>, StatusView>::empty(),
    ensures
        read_bucket(Some(map_text::<Status>(m))) == Ok::<Map<Seq<u8>, StatusView>, ApplyError>(m),
{
    lemma_map_round_trip::<Status>(m);
    lemma_map_text_valid::<Status>(m);
}

/// Abstract value of a [`StatusState`].
pub struct StateView {
    /// What the ledger holds, by address.
    pub entries: Map<Seq<u8>, Seq<u8>>,
    /// The requests made of the ledger so far, oldest first.
    pub journal: Seq<RequestView>,
    /// What is remembered of the ledger, by address: the entry, or that there
    /// is none.
    pub cache: Map<Seq<u8>, Option<Seq<u8>>>,
}

/// The cache says of every address that it knows what the ledger holds there.
pub open spec fn coherent(v: StateView) -> bool {
    forall|a: Seq<u8>| #[trigger] v.cache.contains_key(a) ==> v.cache[a] == v.entries.get(a)
}

/// The store after the bucket at `address` was loaded. An address that the
/// cache knows is not asked for. Any other is read from the ledger, and what
/// was read is remembered, unless it is no UTF-8 text.
pub open spec fn loaded(v: StateView, address: Seq<u8>) -> StateView {
    if v.cache.contains_key(address) {
        v
    } else {
        let raw = v.entries.get(address);
        StateView {
            entries: v.entries,
            journal: v.journal.push(RequestView::Get { address }),
            cache: if raw matches Some(bytes) && !valid_utf8(bytes) {
                v.cache
            } else {
                v.cache.insert(address, raw)
            },
        }
    }
}

/// The store after the bytes `data` were written at `address`: to the ledger
/// and to the cache.
pub open spec fn stored(v: StateView, address: Seq<u8>, data: Seq<u8>) -> StateView {
    StateView {
        entries: v.entries.insert(address, data),
        journal: v.journal.push(RequestView::Put { address, data }),
        cache: v.cache.insert(address, Some(data)),
    }
}

/// The store after the entry at `address` was removed from the ledger. The
/// cache, where it knows the address, now knows it as empty.
pub open spec fn deleted(v: StateView, address: Seq<u8>) -> StateView {
    StateView {
        entries: v.entries.remove(address),
        journal: v.journal.push(RequestView::Delete { address }),
        cache: if v.cache.contains_key(address) {
            v.cache.insert(address, None)
        } else {
            v.cache
        },
    }
}

/// The store after the bucket `m` was written back to `address`: removed where
/// it is empty, since an empty bucket is never stored, and written in its
/// byte form otherwise.
pub open spec fn written_back(
    v: StateView,
    address: Seq<u8>,
    m: Map<Seq<u8>, StatusView>,
) -> StateView {
    if m == Map::<Seq<u8>, StatusView>::empty() {
        deleted(v, address)
    } else {
        stored(v, address, map_text::<Status>(m))
    }
}

/// What a lookup in a bucket gives.
pub open spec fn found_in(
    m: Map<Seq<u8>, StatusView>,
    name: Seq<u8>,
    found: Option<Status>,
) -> bool {
    match found {
        Some(s) => m.contains_key(name) && m[name] == s@,
        None => !m.contains_key(name),
    }
}

/// Copies what the cache holds for one address.
fn copy_raw(raw: &Option<Vec<u8>>) -> (copy: Option<Vec<u8>>)
    ensures
        raw_view(copy) == raw_view(*raw),
{
    match raw {
        Some(bytes) => Some(copy_bytes(bytes.as_slice())),
        None => None,
    }
}

/// Status records on the ledger, with a cache for the run of one transaction.
pub struct StatusState {
    context: Ledger,
    address_map: ByteMap<Option<Vec<u8>>>,
}

impl View for StatusState {
    type V = StateView;

    closed spec fn view(&self) -> StateView {
        StateView {
            entries: self.context@.entries,
            journal: self.context@.journal,
            cache: cache_views(self.address_map@),
        }
    }
}

impl StatusState {
    /// No address is held twice, in the ledger or in the cache.
    pub closed spec fn distinct(&self) -> bool {
        self.context.wf() && self.address_map.wf()
    }

    /// The store is in order: no address is held twice, and the cache agrees
    /// with the ledger.
    pub open spec fn wf(&self) -> bool {
        self.distinct() && coherent(self@)
    }

    /// A store over `context`, with an empty cache.
    pub fn new(context: Ledger) -> (state: StatusState)
        requires
            context.wf(),
        ensures
            state.wf(),
            state@.entries == context@.entries,
            state@.journal == context@.journal,
            state@.cache == Map::<Seq<u8>, Option<Seq<u8>>>::empty(),
    {
        let state = StatusState { context, address_map: ByteMap::new() };
        assert(state@.cache =~= Map::<Seq<u8>, Option<Seq<u8>>>::empty());
        state
    }

    /// Gives the ledger back, with its journal.
    pub fn into_context(self) -> (context: Ledger)
        requires
            self.wf(),
        ensures
            context.wf(),
            context@.entries == self@.entries,
            context@.journal == self@.journal,
    {
        self.context
    }

    /// The ledger, with its journal.
    pub fn context(&self) -> (context: &Ledger)
        requires
            self.wf(),
        ensures
            context.wf(),
            context@.entries == self@.entries,
            context@.journal == self@.journal,
    {
        &self.context
    }

    /// Computes the address of the status record `name`.
    pub fn calculate_address(name: &[u8]) -> (address: Vec<u8>)
        ensures
            address@ == status_address(name@),
    {
        calculate_address(name)
    }

    /// Loads the bucket at `address`, from the cache where it knows the
    /// address and from the ledger otherwise.
    fn load_statuses(&mut self, address: &[u8]) -> (bucket: Result<Bucket<Status>, ApplyError>)
        requires
            old(self).wf(),
        ensures
            final(self).wf(),
            final(self)@ == loaded(old(self)@, address@),
            final(self)@.cache.contains_key(address@) || bucket is Err,
            match read_bucket(old(self)@.entries.get(address@)) {
                Ok(m) => bucket matches Ok(b) && b.wf() && b@ == m && bucket_wf::<Status>(m),
                Err(e) => bucket == Err::<Bucket<Status>, ApplyError>(e),
            },
    {
        let cached: Option<Option<Vec<u8>>> = match self.address_map.get(address) {
            Some(entry) => Some(copy_raw(entry)),
            None => None,
        };
        let raw: Option<Vec<u8>> = match cached {
            Some(entry) => {
                assert(self@.cache.contains_key(address@));
                assert(self@.cache[address@] == raw_view(entry));
                entry
            },
            None => {
                let fetched = self.context.get_state_entry(address);
                let readable = match &fetched {
                    Some(bytes) => is_utf8(bytes.as_slice()),
                    None => true,
                };
                if !readable {
                    assert(self@ =~= loaded(old(self)@, address@));
                    return Err(ApplyError::InvalidSerialization(Corrupted::State));
                }
                let remembered = copy_raw(&fetched);
                self.address_map.insert(copy_bytes(address), remembered);
                proof {
                    assert(self@.cache =~= old(self)@.cache.insert(address@, raw_view(fetched)));
                }
                fetched
            },
        };
        assert(raw_view(raw) == old(self)@.entries.get(address@));
        match raw {
            None => Ok(Bucket::<Status>::new()),
            Some(bytes) => {
                if !is_utf8(bytes.as_slice()) {
                    return Err(ApplyError::InvalidSerialization(Corrupted::State));
                }
                match Status::deserialize_statuses(bytes.as_slice()) {
                    Some(bucket) => Ok(bucket),
                    None => Err(ApplyError::InvalidSerialization(Corrupted::State)),
                }
            },
        }
    }

    /// Writes `statuses` at `address`, to the ledger and to the cache.
    fn store_status(&mut self, address: &[u8], statuses: &Bucket<Status>)
        requires
            old(self).wf(),
            statuses.wf(),
        ensures
            final(self).wf(),
            final(self)@ == stored(old(self)@, address@, map_text::<Status>(statuses@)),
    {
        let state_string = Status::serialize_statuses(statuses);
        self.address_map.insert(copy_bytes(address), Some(copy_bytes(state_string.as_slice())));
        self.context.set_state_entry(copy_bytes(address), state_string);
        proof {
            assert(self@.cache =~= old(self)@.cache.insert(
                address@,
                Some(map_text::<Status>(statuses@)),
            ));
        }
    }

    /// Removes the entry at `address` from the ledger, and has the cache
    /// remember that, where it knew the address.
    fn remove_entry(&mut self, address: &[u8])
        requires
            old(self).wf(),
        ensures
            final(self).wf(),
            final(self)@ == deleted(old(self)@, address@),
    {
        if self.address_map.contains_key(address) {
            self.address_map.insert(copy_bytes(address), None);
            proof {
                assert(self@.cache =~= old(self)@.cache.insert(address@, None));
            }
        }
        self.context.delete_state_entry(address);
    }

    /// Looks up the record `status_name` in the bucket at `address`.
    ///
    /// Fails where the bucket is corrupt. The ledger is asked for the address
    /// only where the cache does not know it.
    pub fn get_status_at(&mut self, address: &[u8], status_name: &[u8]) -> (found: Result<
        Option<Status>,
        ApplyError,
    >)
        requires
            old(self).wf(),
        ensures
            final(self).wf(),
            final(self)@ == loaded(old(self)@, address@),
            match read_bucket(old(self)@.entries.get(address@)) {
                Ok(m) => found matches Ok(status) && found_in(m, status_name@, status),
                Err(e) => found == Err::<Option<Status>, ApplyError>(e),
            },
    {
        let statuses = match self.load_statuses(address) {
            Ok(bucket) => bucket,
            Err(e) => {
                return Err(e);
            },
        };
        match statuses.get(status_name) {
            Some(status) => Ok(Some(status.clone())),
            None => Ok(None),
        }
    }

    /// Stores `status` under its name in the bucket at `address`, in place of
    /// any record of that name, and writes the bucket back.
    ///
    /// Fails, and writes nothing, where the bucket is corrupt.
    pub fn set_status_at(&mut self, address: &[u8], status: Status) -> (done: Result<
        (),
        ApplyError,
    >)
        requires
            old(self).wf(),
        ensures
            final(self).wf(),
            match read_bucket(old(self)@.entries.get(address@)) {
                Ok(m) => done == Ok::<(), ApplyError>(()) && final(self)@ == stored(
                    loaded(old(self)@, address@),
                    address@,
                    map_text::<Status>(m.insert(status@.name, status@)),
                ),
                Err(e) => done == Err::<(), ApplyError>(e) && final(self)@ == loaded(
                    old(self)@,
                    address@,
                ),
            },
    {
        let mut statuses = match self.load_statuses(address) {
            Ok(bucket) => bucket,
            Err(e) => {
                return Err(e);
            },
        };
        statuses.insert(status);
        self.store_status(address, &statuses);
        Ok(())
    }

    /// Takes the record `status_name` out of the bucket at `address` and
    /// writes the bucket back; where nothing is left in it, the address is
    /// removed from the ledger instead.
    ///
    /// Fails, and writes nothing, where the bucket is corrupt.
    pub fn delete_status_at(&mut self, address: &[u8], status_name: &[u8]) -> (done: Result<
        (),
        ApplyError,
    >)
        requires
            old(self).wf(),
        ensures
            final(self).wf(),
            match read_bucket(old(self)@.entries.get(address@)) {
                Ok(m) => done == Ok::<(), ApplyError>(()) && final(self)@ == written_back(
                    loaded(old(self)@, address@),
                    address@,
                    m.remove(status_name@),
                ),
                Err(e) => done == Err::<(), ApplyError>(e) && final(self)@ == loaded(
                    old(self)@,
                    address@,
                ),
            },
    {
        let mut statuses = match self.load_statuses(address) {
            Ok(bucket) => bucket,
            Err(e) => {
                return Err(e);
            },
        };
        statuses.remove(status_name);
        if statuses.is_empty() {
            self.remove_entry(address);
        } else {
            self.store_status(address, &statuses);
        }
        Ok(())
    }

    /// Looks up the record `status_name`, at the address that its name gives.
    pub fn get_status(&mut self, status_name: &[u8]) -> (found: Result<Option<Status>, ApplyError>)
        requires
            old(self).wf(),
        ensures
            final(self).wf(),
            final(self)@ == loaded(old(self)@, status_address(status_name@)),
            match read_bucket(old(self)@.entries.get(status_address(status_name@))) {
                Ok(m) => found matches Ok(status) && found_in(m, status_name@, status),
                Err(e) => found == Err::<Option<Status>, ApplyError>(e),
            },
    {
        let address = calculate_address(status_name);
        self.get_status_at(address.as_slice(), status_name)
    }

    /// Stores `s` under its name, at the address that `status_name` gives.
    pub fn set_status(&mut self, status_name: &[u8], s: Status) -> (done: Result<(), ApplyError>)
        requires
            old(self).wf(),
        ensures
            final(self).wf(),
            match read_bucket(old(self)@.entries.get(status_address(status_name@))) {
                Ok(m) => done == Ok::<(), ApplyError>(()) && final(self)@ == stored(
                    loaded(old(self)@, status_address(status_name@)),
                    status_address(status_name@),
                    map_text::<Status>(m.insert(s@.name, s@)),
                ),
                Err(e) => done == Err::<(), ApplyError>(e) && final(self)@ == loaded(
                    old(self)@,
                    status_address(status_name@),
                ),
            },
    {
        let address = calculate_address(status_name);
        self.set_status_at(address.as_slice(), s)
    }

    /// Takes out the record `status_name`, at the address that its name
    /// gives.
    pub fn delete_status(&mut self, status_name: &[u8]) -> (done: Result<(), ApplyError>)
        requires
            old(self).wf(),
        ensures
            final(self).wf(),
            match read_bucket(old(self)@.entries.get(status_address(status_name@))) {
                Ok(m) => done == Ok::<(), ApplyError>(()) && final(self)@ == written_back(
                    loaded(old(self)@, status_address(status_name@)),
                    status_address(status_name@),
                    m.remove(status_name@),
                ),
                Err(e) => done == Err::<(), ApplyError>(e) && final(self)@ == loaded(
                    old(self)@,
                    status_address(status_name@),
                ),
            },
    {
        let address = calculate_address(status_name);
        self.delete_status_at(address.as_slice(), status_name)
    }
}

} // verus!
