//! The state as one blob in durable memory: the length of the serialized
//! state as eight bytes, most significant first, at offset 0, and the
//! serialized state from offset 8 on.

use crate::accounts_store::schema::s0::heap::{
    entries_decoded, lemma_entries_round_trip, HeapPages, PageEntry, PageEntryModel,
};
use crate::accounts_store::schema::SchemaLabel;
use crate::stable_memory::{
    can_write, read_partition, read_raw, writable, write_partition, write_raw, MemoryError,
    Partition,
};
use crate::state::partitions::{
    bears_signature, loadable, Partitions, ProbedMemory, ACCOUNTS_MEMORY_ID, HEAP_MEMORY_ID,
};
use crate::state::{
    choose_loader, lemma_state_round_trip, state_decoded, Loader, State, StateError, StateModel,
};
use crate::wire::{all_fit, be_u64, be_u64_value, lemma_be_u64_value, put_u64, take_u64, Wire};
use ic_stable_structures::memory_manager::MemoryId;
use ic_stable_structures::DefaultMemoryImpl;
use vstd::prelude::*;

verus! {

/// The offset of a frame in its memory: that of its length field.
pub const FRAME_OFFSET: u64 = 0;

/// The number of bytes of the length field, and so the offset of the blob.
pub const LENGTH_FIELD_LEN: u64 = 8;

/// A blob behind its length.
pub open spec fn framed(blob: Seq<u8>) -> Seq<u8> {
    be_u64(blob.len() as u64) + blob
}

/// The blob that `bytes` hold behind its length, where `bytes` are long
/// enough for the length field and for as many bytes as it says. What
/// follows the blob plays no part.
pub open spec fn unframed(bytes: Seq<u8>) -> Option<Seq<u8>> {
    if bytes.len() >= 8 && 8 + be_u64_value(bytes) <= bytes.len() {
        Some(bytes.subrange(8, 8 + be_u64_value(bytes)))
    } else {
        None
    }
}

/// A blob that was framed is the blob that is found, whatever follows it in
/// memory.
pub proof fn lemma_unframed_framed(blob: Seq<u8>, slack: Seq<u8>)
    requires
        blob.len() <= u64::MAX,
    ensures
        unframed(framed(blob) + slack) == Some(blob),
{
    let bytes = framed(blob) + slack;
    lemma_be_u64_value(blob.len() as u64, blob + slack);
}

/// Saving and then recovering a state gives the state: the state read from
/// the blob found in the framed serialized state is the state that was
/// serialized, whatever follows the frame in memory.
pub proof fn lemma_recover_saved(m: StateModel, slack: Seq<u8>)
    requires
        State::fits(m),
        State::wire(m).len() <= u64::MAX,
    ensures
        ({
            let blob = unframed(framed(State::wire(m)) + slack);
            blob is Some && state_decoded(blob->0) == Some(m)
        }),
{
    lemma_unframed_framed(State::wire(m), slack);
    lemma_state_round_trip(m);
}

/// The length field for a blob of `len` bytes.
pub fn length_field(len: usize) -> (field: Vec<u8>)
    ensures
        field@ == be_u64(len as u64),
{
    let mut field: Vec<u8> = Vec::new();
    put_u64(len as u64, &mut field);
    field
}

/// The error of this module for an error of the memory.
pub fn memory_failure(e: MemoryError) -> (r: StateError)
    ensures
        r == match e {
            MemoryError::OutOfBounds => StateError::OutOfBounds,
            MemoryError::GrowFailed => StateError::GrowFailed,
            MemoryError::AddressOverflow => StateError::TooLarge,
        },
{
    match e {
        MemoryError::OutOfBounds => StateError::OutOfBounds,
        MemoryError::GrowFailed => StateError::GrowFailed,
        MemoryError::AddressOverflow => StateError::TooLarge,
    }
}

/// The frame of a blob: its length field, then the blob.
pub fn frame(blob: &[u8]) -> (bytes: Vec<u8>)
    ensures
        bytes@ == framed(blob@),
        bytes@.len() == blob@.len() + 8,
{
    let mut bytes: Vec<u8> = length_field(blob.len());
    bytes.extend_from_slice(blob);
    bytes
}

/// Writes a blob behind its length into the raw memory: the frame of the
/// blob, from offset 0 on, in one write. A blob too long for the address
/// space is refused before anything is written; apart from that the write
/// fails only where the memory cannot grow.
pub fn write_framed_raw(memory: &mut DefaultMemoryImpl, blob: &[u8]) -> (r: Result<(), StateError>)
    ensures
        !writable(LENGTH_FIELD_LEN, blob@.len() as usize) ==> r == Err::<(), StateError>(
            StateError::TooLarge,
        ) && *final(memory) == *old(memory),
        r is Err && writable(LENGTH_FIELD_LEN, blob@.len() as usize) ==> r == Err::<
            (),
            StateError,
        >(StateError::GrowFailed),
{
    if !can_write(LENGTH_FIELD_LEN, blob.len()) {
        return Err(StateError::TooLarge);
    }
    let bytes: Vec<u8> = frame(blob);
    match write_raw(memory, FRAME_OFFSET, bytes.as_slice()) {
        Ok(_) => Ok(()),
        Err(e) => Err(memory_failure(e)),
    }
}

/// Writes a blob behind its length into a partition; as
/// [`write_framed_raw`].
pub fn write_framed(partition: &mut Partition, blob: &[u8]) -> (r: Result<(), StateError>)
    ensures
        !writable(LENGTH_FIELD_LEN, blob@.len() as usize) ==> r == Err::<(), StateError>(
            StateError::TooLarge,
        ) && *final(partition) == *old(partition),
        r is Err && writable(LENGTH_FIELD_LEN, blob@.len() as usize) ==> r == Err::<
            (),
            StateError,
        >(StateError::GrowFailed),
{
    if !can_write(LENGTH_FIELD_LEN, blob.len()) {
        return Err(StateError::TooLarge);
    }
    let bytes: Vec<u8> = frame(blob);
    match write_partition(partition, FRAME_OFFSET, bytes.as_slice()) {
        Ok(_) => Ok(()),
        Err(e) => Err(memory_failure(e)),
    }
}

/// The number of bytes to read behind a length field, where a buffer can
/// hold as many.
pub fn blob_len(field: &[u8]) -> (len: Option<usize>)
    requires
        field@.len() == 8,
    ensures
        match len {
            Some(n) => n == be_u64_value(field@),
            None => be_u64_value(field@) > usize::MAX,
        },
{
    match take_u64(field, 0) {
        Some((len, _)) => if len > usize::MAX as u64 {
            None
        } else {
            Some(len as usize)
        },
        None => None,
    }
}

/// The number of bytes that a length field asks for, given what reading
/// the field gave: the number that the eight bytes hold, and `OutOfBounds`
/// where the field could not be read or holds more than a buffer can.
pub open spec fn asked_length(field: Result<Vec<u8>, MemoryError>) -> Result<usize, StateError> {
    match field {
        Ok(bytes) => if bytes@.len() == 8 && be_u64_value(bytes@) <= usize::MAX {
            Ok(be_u64_value(bytes@) as usize)
        } else {
            Err(StateError::OutOfBounds)
        },
        Err(_) => Err(StateError::OutOfBounds),
    }
}

/// Decides [`asked_length`].
pub fn length_read(field: Result<Vec<u8>, MemoryError>) -> (len: Result<usize, StateError>)
    ensures
        len == asked_length(field),
{
    match field {
        Ok(bytes) => if bytes.len() == 8 {
            match blob_len(bytes.as_slice()) {
                Some(len) => Ok(len),
                None => Err(StateError::OutOfBounds),
            }
        } else {
            Err(StateError::OutOfBounds)
        },
        Err(_) => Err(StateError::OutOfBounds),
    }
}

/// The blob behind a length field, given what reading it gave: the bytes
/// read, and `OutOfBounds` where they could not be read.
pub fn blob_read(blob: Result<Vec<u8>, MemoryError>) -> (r: Result<Vec<u8>, StateError>)
    ensures
        r == match blob {
            Ok(bytes) => Ok::<Vec<u8>, StateError>(bytes),
            Err(_) => Err(StateError::OutOfBounds),
        },
{
    match blob {
        Ok(bytes) => Ok(bytes),
        Err(_) => Err(StateError::OutOfBounds),
    }
}

/// A blob of as many bytes as a length field of eight bytes says is the
/// blob of the frame that the two make.
pub proof fn lemma_unframed_parts(field: Seq<u8>, blob: Seq<u8>)
    requires
        field.len() == 8,
        blob.len() == be_u64_value(field),
    ensures
        unframed(field + blob) == Some(blob),
{
    let bytes = field + blob;
    assert(be_u64_value(bytes) == be_u64_value(field)) by {
        assert(bytes[0] == field[0] && bytes[1] == field[1] && bytes[2] == field[2] && bytes[3]
            == field[3] && bytes[4] == field[4] && bytes[5] == field[5] && bytes[6] == field[6]
            && bytes[7] == field[7]);
    }
    assert(bytes.subrange(8, 8 + be_u64_value(bytes)) =~= blob);
}

/// Reads the blob behind a length field of the raw memory, given what
/// reading the field gave: as many bytes as the field asks for, from the
/// end of the field on. Where the field asks for none that a buffer can
/// hold, nothing is read. Where bytes come back, they are as many as the
/// field says, so that field and blob make a frame.
pub fn read_behind_raw(memory: &DefaultMemoryImpl, field: Result<Vec<u8>, MemoryError>) -> (r:
    Result<Vec<u8>, StateError>)
    ensures
        match r {
            Ok(blob) => field matches Ok(bytes) && asked_length(field) == Ok::<usize, StateError>(
                blob@.len() as usize,
            ) && unframed(bytes@ + blob@) == Some(blob@),
            Err(e) => e == StateError::OutOfBounds,
        },
{
    let ghost seen = field;
    proof {
        if let Ok(bytes) = seen {
            if bytes@.len() == 8 {
                assert forall|blob: Seq<u8>| blob.len() == be_u64_value(bytes@) implies unframed(
                    bytes@ + blob,
                ) == Some(blob) by {
                    lemma_unframed_parts(bytes@, blob);
                }
            }
        }
    }
    match length_read(field) {
        Ok(len) => blob_read(read_raw(memory, LENGTH_FIELD_LEN, len)),
        Err(e) => Err(e),
    }
}

/// Reads the blob behind a length field of a partition; as
/// [`read_behind_raw`].
pub fn read_behind(partition: &Partition, field: Result<Vec<u8>, MemoryError>) -> (r: Result<
    Vec<u8>,
    StateError,
>)
    ensures
        match r {
            Ok(blob) => field matches Ok(bytes) && asked_length(field) == Ok::<usize, StateError>(
                blob@.len() as usize,
            ) && unframed(bytes@ + blob@) == Some(blob@),
            Err(e) => e == StateError::OutOfBounds,
        },
{
    let ghost seen = field;
    proof {
        if let Ok(bytes) = seen {
            if bytes@.len() == 8 {
                assert forall|blob: Seq<u8>| blob.len() == be_u64_value(bytes@) implies unframed(
                    bytes@ + blob,
                ) == Some(blob) by {
                    lemma_unframed_parts(bytes@, blob);
                }
            }
        }
    }
    match length_read(field) {
        Ok(len) => blob_read(read_partition(partition, LENGTH_FIELD_LEN, len)),
        Err(e) => Err(e),
    }
}

/// Reads the blob that the raw memory holds behind its length: the length
/// field at offset 0, then, by [`read_behind_raw`], as many bytes from
/// offset 8 on. The read fails where the memory ends before the bytes.
pub fn read_framed_raw(memory: &DefaultMemoryImpl) -> (r: Result<Vec<u8>, StateError>)
    ensures
        r matches Err(e) ==> e == StateError::OutOfBounds,
{
    read_behind_raw(memory, read_raw(memory, FRAME_OFFSET, 8))
}

/// Reads the blob that a partition holds behind its length; as
/// [`read_framed_raw`], by [`read_behind`].
pub fn read_framed(partition: &Partition) -> (r: Result<Vec<u8>, StateError>)
    ensures
        r matches Err(e) ==> e == StateError::OutOfBounds,
{
    read_behind(partition, read_partition(partition, FRAME_OFFSET, 8))
}

impl State {
    /// Saves the state in the memory, as one blob behind its length. A
    /// state too long for the address space is refused before anything is
    /// written; apart from that the save fails only where the memory cannot
    /// grow.
    pub fn save_heap_to_managed_memory(&self, memory: DefaultMemoryImpl) -> (r: Result<
        (),
        StateError,
    >)
        ensures
            !writable(LENGTH_FIELD_LEN, State::wire(self.model()).len() as usize) ==> r == Err::<
                (),
                StateError,
            >(StateError::TooLarge),
            r is Err && writable(LENGTH_FIELD_LEN, State::wire(self.model()).len() as usize) ==> r
                == Err::<(), StateError>(StateError::GrowFailed),
    {
        let mut memory: DefaultMemoryImpl = memory;
        let bytes: Vec<u8> = self.encode();
        write_framed_raw(&mut memory, bytes.as_slice())
    }

    /// Saves the state in a partition; as
    /// [`State::save_heap_to_managed_memory`].
    pub fn save_heap_to_partition(&self, partition: &mut Partition) -> (r: Result<(), StateError>)
        ensures
            !writable(LENGTH_FIELD_LEN, State::wire(self.model()).len() as usize) ==> r == Err::<
                (),
                StateError,
            >(StateError::TooLarge) && *final(partition) == *old(partition),
            r is Err && writable(LENGTH_FIELD_LEN, State::wire(self.model()).len() as usize) ==> r
                == Err::<(), StateError>(StateError::GrowFailed),
    {
        let bytes: Vec<u8> = self.encode();
        write_framed(partition, bytes.as_slice())
    }

    /// The state in a blob, given what reading the blob gave: the state
    /// that the bytes are the serialized form of, or the failure of the
    /// read, or `Malformed` where the bytes are those of no state.
    pub fn from_blob(blob: Result<Vec<u8>, StateError>) -> (r: Result<State, StateError>)
        ensures
            match blob {
                Ok(bytes) => match r {
                    Ok(state) => state_decoded(bytes@) == Some(state.model()),
                    Err(e) => e == StateError::Malformed && state_decoded(bytes@) is None,
                },
                Err(e) => r == Err::<State, StateError>(e),
            },
    {
        match blob {
            Ok(bytes) => State::decode(bytes),
            Err(e) => Err(e),
        }
    }

    /// Recovers the state from a partition: reads the length at offset 0,
    /// then as many bytes from offset 8 on, and decodes them. The recovery
    /// fails as a whole where the partition ends before the bytes or the
    /// bytes are those of no state.
    pub fn recover_heap_from_managed_memory(memory: Partition) -> (r: Result<State, StateError>)
        ensures
            r matches Err(e) ==> e == StateError::OutOfBounds || e == StateError::Malformed,
    {
        State::from_blob(read_framed(&memory))
    }

    /// Recovers the state from a memory that is not partitioned; as
    /// [`State::recover_heap_from_managed_memory`].
    pub fn recover_heap_from_raw_memory(memory: &DefaultMemoryImpl) -> (r: Result<
        State,
        StateError,
    >)
        ensures
            r matches Err(e) ==> e == StateError::OutOfBounds || e == StateError::Malformed,
    {
        State::from_blob(read_framed_raw(memory))
    }
}

/// What a restart found.
pub struct Restored {
    /// The state that was loaded, or why it could not be.
    pub state: Result<State, StateError>,
    /// The partitions of the memory, or, where it holds no memory manager,
    /// the memory as it came.
    pub partitions: Result<Partitions, DefaultMemoryImpl>,
    /// How the state was loaded.
    pub loader: Loader,
}

/// The model of a state without accounts.
pub open spec fn without_accounts(m: StateModel) -> StateModel {
    StateModel {
        accounts: Seq::empty(),
        block_height_synced_up_to: m.block_height_synced_up_to,
        last_ledger_sync_timestamp_nanos: m.last_ledger_sync_timestamp_nanos,
    }
}

/// The model of a state with other accounts.
pub open spec fn with_accounts(m: StateModel, accounts: Seq<PageEntryModel>) -> StateModel {
    StateModel {
        accounts,
        block_height_synced_up_to: m.block_height_synced_up_to,
        last_ledger_sync_timestamp_nanos: m.last_ledger_sync_timestamp_nanos,
    }
}

/// Saving a state with its accounts apart and recovering it gives the
/// state: the heap blob is read back as the state without accounts, the
/// account blob as the accounts, and the two together are the state.
pub proof fn lemma_recover_saved_apart(m: StateModel, heap_slack: Seq<u8>, pages_slack: Seq<u8>)
    requires
        State::fits(m),
        State::wire(without_accounts(m)).len() <= u64::MAX,
        HeapPages::wire(m.accounts).len() <= u64::MAX,
    ensures
        ({
            let heap = unframed(framed(State::wire(without_accounts(m))) + heap_slack);
            let pages = unframed(framed(HeapPages::wire(m.accounts)) + pages_slack);
            &&& heap is Some
            &&& pages is Some
            &&& state_decoded(heap->0) is Some
            &&& entries_decoded(pages->0) is Some
            &&& with_accounts(state_decoded(heap->0)->0, entries_decoded(pages->0)->0) == m
        }),
{
    let bare = without_accounts(m);
    assert(HeapPages::fits(bare.accounts)) by {
        assert(all_fit::<PageEntry>(bare.accounts));
    }
    lemma_recover_saved(bare, heap_slack);
    lemma_unframed_framed(HeapPages::wire(m.accounts), pages_slack);
    lemma_entries_round_trip(m.accounts);
}

impl HeapPages {
    /// The store in a blob, given what reading the blob gave.
    pub fn from_blob(blob: Result<Vec<u8>, StateError>) -> (r: Result<HeapPages, StateError>)
        ensures
            match blob {
                Ok(bytes) => match r {
                    Ok(store) => entries_decoded(bytes@) == Some(store.model()),
                    Err(e) => e == StateError::Malformed && entries_decoded(bytes@) is None,
                },
                Err(e) => r == Err::<HeapPages, StateError>(e),
            },
    {
        match blob {
            Ok(bytes) => match HeapPages::from_bytes(bytes.as_slice()) {
                Some(store) => Ok(store),
                None => Err(StateError::Malformed),
            },
            Err(e) => Err(e),
        }
    }
}

impl State {
    /// The serialized form of the state without its accounts.
    pub fn encode_without_accounts(&self) -> (bytes: Vec<u8>)
        ensures
            State::fits(without_accounts(self.model())),
            bytes@ == State::wire(without_accounts(self.model())),
    {
        let bare = State {
            accounts: HeapPages::new(),
            block_height_synced_up_to: self.block_height_synced_up_to,
            last_ledger_sync_timestamp_nanos: self.last_ledger_sync_timestamp_nanos,
        };
        assert(bare.model().accounts =~= Seq::<PageEntryModel>::empty());
        bare.encode()
    }

    /// The state of a heap blob and of the accounts that were kept apart:
    /// the state of the blob, with the accounts in place of its own. Where
    /// either could not be loaded there is no state; the failure of the heap
    /// blob goes first.
    pub fn assemble(heap: Result<State, StateError>, accounts: Result<HeapPages, StateError>) -> (r:
        Result<State, StateError>)
        ensures
            match (heap, accounts) {
                (Ok(state), Ok(pages)) => r matches Ok(whole) && whole.model() == with_accounts(
                    state.model(),
                    pages.model(),
                ),
                (Err(e), _) => r == Err::<State, StateError>(e),
                (Ok(_), Err(e)) => r == Err::<State, StateError>(e),
            },
    {
        match heap {
            Ok(state) => match accounts {
                Ok(pages) => Ok(
                    State {
                        accounts: pages,
                        block_height_synced_up_to: state.block_height_synced_up_to,
                        last_ledger_sync_timestamp_nanos: state.last_ledger_sync_timestamp_nanos,
                    },
                ),
                Err(e) => Err(e),
            },
            Err(e) => Err(e),
        }
    }

    /// Loads the state from a memory that was looked at. Where the look
    /// found no memory manager that can be loaded, and so wherever it found
    /// no signature, the memory is read as a legacy blob and handed back as
    /// it came. Where it found one, the schema marker decides: no marker,
    /// no state yet; otherwise the state is recovered from the heap
    /// partition, and the accounts from their own partition where they are
    /// kept apart.
    pub fn restore_probed(probed: ProbedMemory) -> (r: Restored)
        ensures
            r.partitions is Ok <==> loadable(probed.pages(), probed.prefix()),
            !bears_signature(probed.pages(), probed.prefix()) ==> r.loader == Loader::LegacyBlob,
            r.partitions matches Err(unmanaged) ==> unmanaged == probed.memory(),
            r.partitions is Err <==> r.loader == Loader::LegacyBlob,
            r.loader == Loader::Nothing ==> (r.state matches Ok(state) && state.model()
                == State::new_model()),
            r.state matches Err(e) ==> e == StateError::OutOfBounds || e == StateError::Malformed,
    {
        match Partitions::try_from_probed(probed) {
            Err(unmanaged) => {
                let state = State::recover_heap_from_raw_memory(&unmanaged);
                Restored { state, partitions: Err(unmanaged), loader: choose_loader(false, None) }
            },
            Ok(partitions) => {
                let loader: Loader = choose_loader(true, partitions.schema_label());
                let state: Result<State, StateError> = match loader {
                    Loader::HeapBlob => State::recover_heap_from_managed_memory(
                        partitions.get(MemoryId::new(HEAP_MEMORY_ID)),
                    ),
                    Loader::HeapBlobAndAccountPages => {
                        let heap = State::recover_heap_from_managed_memory(
                            partitions.get(MemoryId::new(HEAP_MEMORY_ID)),
                        );
                        let pages: Partition = partitions.get(MemoryId::new(ACCOUNTS_MEMORY_ID));
                        State::assemble(heap, HeapPages::from_blob(read_framed(&pages)))
                    },
                    _ => Ok(State::new()),
                };
                Restored { state, partitions: Ok(partitions), loader }
            },
        }
    }

    /// Loads the state after a restart: looks at the memory, which only
    /// reads it, and loads by [`State::restore_probed`].
    pub fn restore(memory: DefaultMemoryImpl) -> (r: Restored)
        ensures
            r.partitions matches Err(unmanaged) ==> unmanaged == memory,
            r.partitions is Err <==> r.loader == Loader::LegacyBlob,
            r.loader == Loader::Nothing ==> (r.state matches Ok(state) && state.model()
                == State::new_model()),
            r.state matches Err(e) ==> e == StateError::OutOfBounds || e == StateError::Malformed,
    {
        State::restore_probed(ProbedMemory::probe(memory))
    }

    /// Saves the state before a stop, in the layout that `label` names, and
    /// then marks the memory with `label`. With `Blob` the whole state goes
    /// into the heap partition; with `AccountsInStableMemory` the state
    /// without accounts goes there and the accounts into their own
    /// partition. A state too long for the address space is refused before
    /// anything is written.
    pub fn persist(&self, partitions: &mut Partitions, label: SchemaLabel) -> (r: Result<
        (),
        StateError,
    >)
        ensures
            r is Err && persistable(self.model(), label) ==> r == Err::<(), StateError>(
                StateError::GrowFailed,
            ),
            !persistable(self.model(), label) ==> r == Err::<(), StateError>(StateError::TooLarge)
                && *final(partitions) == *old(partitions),
    {
        let (heap_blob, pages_blob): (Vec<u8>, Option<Vec<u8>>) = match label {
            SchemaLabel::Blob => (self.encode(), None),
            SchemaLabel::AccountsInStableMemory => (
                self.encode_without_accounts(),
                Some(self.accounts.to_bytes()),
            ),
        };
        if !can_write(LENGTH_FIELD_LEN, heap_blob.len()) {
            return Err(StateError::TooLarge);
        }
        match &pages_blob {
            Some(blob) => {
                if !can_write(LENGTH_FIELD_LEN, blob.len()) {
                    return Err(StateError::TooLarge);
                }
            },
            None => {},
        }
        let mut heap: Partition = partitions.get(MemoryId::new(HEAP_MEMORY_ID));
        match write_framed(&mut heap, heap_blob.as_slice()) {
            Ok(_) => {},
            Err(e) => {
                return Err(e);
            },
        }
        match &pages_blob {
            Some(blob) => {
                let mut pages: Partition = partitions.get(MemoryId::new(ACCOUNTS_MEMORY_ID));
                match write_framed(&mut pages, blob.as_slice()) {
                    Ok(_) => {},
                    Err(e) => {
                        return Err(e);
                    },
                }
            },
            None => {},
        }
        match partitions.set_schema_label(label) {
            Ok(_) => Ok(()),
            Err(e) => Err(memory_failure(e)),
        }
    }
}

/// Whether a state can be saved in the layout that `label` names: whether
/// each blob of the layout, behind its length field, ends inside the
/// address space.
pub open spec fn persistable(m: StateModel, label: SchemaLabel) -> bool {
    match label {
        SchemaLabel::Blob => writable(LENGTH_FIELD_LEN, State::wire(m).len() as usize),
        SchemaLabel::AccountsInStableMemory => writable(
            LENGTH_FIELD_LEN,
            State::wire(without_accounts(m)).len() as usize,
        ) && writable(LENGTH_FIELD_LEN, HeapPages::wire(m.accounts).len() as usize),
    }
}

} // verus!
