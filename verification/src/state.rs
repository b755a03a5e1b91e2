//! The state of the service as a whole, and its way into and out of durable
//! memory.
//!
//! On a restart the memory is first asked whether it holds a memory manager.
//! Where it does, the schema marker in the metadata partition says how the
//! state is laid out; where it does not, the memory holds the oldest layout,
//! one serialized state behind its length, and is read as such. So a memory
//! that was never partitioned is taken over without a migration of its own.

pub mod partitions;
pub mod with_accounts_in_stable_memory;

use crate::accounts_store::schema::s0::heap::{HeapPages, PageEntryModel};
use crate::accounts_store::schema::s0::AccountsDbS0Trait;
use crate::accounts_store::schema::s0::PageMap;
use crate::accounts_store::schema::SchemaLabel;
use crate::state::partitions::{bears_signature, loadable};
use crate::wire::Wire;
use vstd::prelude::*;

verus! {

/// Everything that the service holds in memory: the accounts, and how far
/// the ledger has been followed.
#[derive(Debug, PartialEq, Eq)]
pub struct State {
    /// The accounts, page by page.
    pub accounts: HeapPages,
    /// The height of the last block of the ledger that was taken in, if any.
    pub block_height_synced_up_to: Option<u64>,
    /// When the ledger was last asked, in nanoseconds since the epoch.
    pub last_ledger_sync_timestamp_nanos: u64,
}

/// Why a state could not be saved or recovered.
#[derive(Clone, Copy, Debug, PartialEq, Eq, Structural)]
pub enum StateError {
    /// The serialized state is too long for its length field or for the
    /// address space.
    TooLarge,
    /// The memory ends before the bytes that were to be read.
    OutOfBounds,
    /// The memory could not be grown to hold the state.
    GrowFailed,
    /// The bytes read are not those of a state.
    Malformed,
}

/// What a state is: its stored pages in the order of their keys, and the
/// progress of the synchronisation with the ledger.
pub struct StateModel {
    pub accounts: Seq<PageEntryModel>,
    pub block_height_synced_up_to: Option<u64>,
    pub last_ledger_sync_timestamp_nanos: u64,
}

impl StateModel {
    /// The fields in a row, in the order in which they are written.
    pub open spec fn row(self) -> (Seq<PageEntryModel>, (Option<u64>, u64)) {
        (self.accounts, (self.block_height_synced_up_to, self.last_ledger_sync_timestamp_nanos))
    }

    /// The value whose fields in a row are `row`.
    pub open spec fn of_row(row: (Seq<PageEntryModel>, (Option<u64>, u64))) -> StateModel {
        StateModel {
            accounts: row.0,
            block_height_synced_up_to: row.1.0,
            last_ledger_sync_timestamp_nanos: row.1.1,
        }
    }
}

impl Wire for State {
    type Model = StateModel;

    open spec fn model(&self) -> StateModel {
        StateModel {
            accounts: self.accounts.model(),
            block_height_synced_up_to: self.block_height_synced_up_to.model(),
            last_ledger_sync_timestamp_nanos: self.last_ledger_sync_timestamp_nanos.model(),
        }
    }

    open spec fn fits(m: StateModel) -> bool {
        <(HeapPages, (Option<u64>, u64)) as Wire>::fits(m.row())
    }

    open spec fn wire(m: StateModel) -> Seq<u8> {
        <(HeapPages, (Option<u64>, u64)) as Wire>::wire(m.row())
    }

    open spec fn parse(s: Seq<u8>) -> Option<(StateModel, int)> {
        match <(HeapPages, (Option<u64>, u64)) as Wire>::parse(s) {
            Some((row, n)) => Some((StateModel::of_row(row), n)),
            None => None,
        }
    }

    proof fn lemma_parse_bounds(s: Seq<u8>) {
        <(HeapPages, (Option<u64>, u64)) as Wire>::lemma_parse_bounds(s);
    }

    proof fn lemma_round_trip(m: StateModel, rest: Seq<u8>) {
        <(HeapPages, (Option<u64>, u64)) as Wire>::lemma_round_trip(m.row(), rest);
    }

    proof fn lemma_parse_is_wire(s: Seq<u8>) {
        <(HeapPages, (Option<u64>, u64)) as Wire>::lemma_parse_is_wire(s);
    }

    fn write(&self, out: &mut Vec<u8>) {
        self.accounts.write(out);
        self.block_height_synced_up_to.write(out);
        self.last_ledger_sync_timestamp_nanos.write(out);
    }

    fn read(input: &[u8], pos: usize) -> (r: Option<(State, usize)>) {
        match <(HeapPages, (Option<u64>, u64)) as Wire>::read(input, pos) {
            Some(((accounts, (block_height_synced_up_to, last_ledger_sync_timestamp_nanos)), end)) => Some((State { accounts, block_height_synced_up_to, last_ledger_sync_timestamp_nanos }, end)),
            None => None,
        }
    }
}

/// The state that `bytes` are the serialized form of, where they are that
/// of a state from their first byte to their last.
pub open spec fn state_decoded(bytes: Seq<u8>) -> Option<StateModel> {
    match State::parse(bytes) {
        Some((m, n)) => if n == bytes.len() {
            Some(m)
        } else {
            None
        },
        None => None,
    }
}

/// A serialized state is read back as the state.
pub proof fn lemma_state_round_trip(m: StateModel)
    requires
        State::fits(m),
    ensures
        state_decoded(State::wire(m)) == Some(m),
{
    State::lemma_round_trip(m, Seq::empty());
}

/// Saving what was loaded changes nothing: the serialized form of a state
/// that was read from bytes is those bytes.
pub proof fn lemma_state_wire_of_decoded(bytes: Seq<u8>)
    ensures
        state_decoded(bytes) matches Some(m) ==> State::wire(m) == bytes && State::fits(m),
{
    State::lemma_parse_is_wire(bytes);
    State::lemma_parse_bounds(bytes);
}

impl State {
    /// The model of the state before anything was stored: no accounts, and
    /// the ledger not followed yet.
    pub open spec fn new_model() -> StateModel {
        StateModel {
            accounts: Seq::empty(),
            block_height_synced_up_to: None,
            last_ledger_sync_timestamp_nanos: 0,
        }
    }

    /// A state without accounts, which has not followed the ledger yet.
    pub fn new() -> (state: State)
        ensures
            state.model() == State::new_model(),
            state.accounts.pages() == PageMap::empty(),
    {
        let state = State {
            accounts: HeapPages::new(),
            block_height_synced_up_to: None,
            last_ledger_sync_timestamp_nanos: 0,
        };
        assert(state.model().accounts =~= Seq::<PageEntryModel>::empty());
        state
    }

    /// The serialized form of the state.
    pub fn encode(&self) -> (bytes: Vec<u8>)
        ensures
            State::fits(self.model()),
            bytes@ == State::wire(self.model()),
    {
        let mut bytes: Vec<u8> = Vec::new();
        self.write(&mut bytes);
        bytes
    }

    /// The state that `bytes` are the serialized form of. Bytes that are
    /// those of no state are refused as a whole.
    pub fn decode(bytes: Vec<u8>) -> (r: Result<State, StateError>)
        ensures
            match r {
                Ok(state) => state_decoded(bytes@) == Some(state.model()) && State::wire(
                    state.model(),
                ) == bytes@,
                Err(e) => e == StateError::Malformed && state_decoded(bytes@) is None,
            },
    {
        assert(bytes@.skip(0) =~= bytes@);
        proof {
            lemma_state_wire_of_decoded(bytes@);
        }
        match <State as Wire>::read(bytes.as_slice(), 0) {
            Some((state, end)) => if end == bytes.len() {
                Ok(state)
            } else {
                Err(StateError::Malformed)
            },
            None => Err(StateError::Malformed),
        }
    }
}

/// How the state is to be loaded on a restart.
#[derive(Clone, Copy, Debug, PartialEq, Eq, Structural)]
pub enum Loader {
    /// The memory is not partitioned: it holds one serialized state behind
    /// its length, from offset 0.
    LegacyBlob,
    /// The memory is partitioned and bears no schema marker: nothing was
    /// saved yet.
    Nothing,
    /// The heap partition holds the serialized state, accounts included.
    HeapBlob,
    /// The heap partition holds the serialized state, and the accounts are
    /// kept page by page in a partition of their own.
    HeapBlobAndAccountPages,
}

/// The loader for a memory, given whether it holds a memory manager and,
/// where it does, the schema marker that was found.
pub open spec fn loader_for(managed: bool, label: Option<SchemaLabel>) -> Loader {
    if !managed {
        Loader::LegacyBlob
    } else {
        match label {
            None => Loader::Nothing,
            Some(SchemaLabel::Blob) => Loader::HeapBlob,
            Some(SchemaLabel::AccountsInStableMemory) => Loader::HeapBlobAndAccountPages,
        }
    }
}

/// Decides [`loader_for`].
pub fn choose_loader(managed: bool, label: Option<SchemaLabel>) -> (loader: Loader)
    ensures
        loader == loader_for(managed, label),
{
    if !managed {
        Loader::LegacyBlob
    } else {
        match label {
            None => Loader::Nothing,
            Some(SchemaLabel::Blob) => Loader::HeapBlob,
            Some(SchemaLabel::AccountsInStableMemory) => Loader::HeapBlobAndAccountPages,
        }
    }
}

/// A memory without the signature of a memory manager is loaded as a legacy
/// blob, whatever else it holds and whatever a marker would say.
pub proof fn lemma_unsigned_memory_is_legacy(
    pages: u64,
    prefix: Seq<u8>,
    label: Option<SchemaLabel>,
)
    requires
        !bears_signature(pages, prefix),
    ensures
        !loadable(pages, prefix),
        loader_for(loadable(pages, prefix), label) == Loader::LegacyBlob,
{
}

} // verus!
