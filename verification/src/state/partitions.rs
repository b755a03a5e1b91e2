//! The layout of the durable memory: a memory manager and the partitions it
//! hands out.

use crate::accounts_store::schema::{marked, SchemaLabel, SCHEMA_MARKER_LEN};
use crate::stable_memory::{
    raw_pages, read_partition, read_raw, write_partition, MemoryError, Partition,
};
use ic_stable_structures::memory_manager::{MemoryId, MemoryManager};
use ic_stable_structures::DefaultMemoryImpl;
use vstd::prelude::*;

verus! {

/// A memory manager over the host memory, with the partitions it manages.
#[verifier::external_body]
pub struct Partitions {
    pub(crate) memory_manager: MemoryManager<DefaultMemoryImpl>,
}

/// The number of the partition that holds metadata such as the schema
/// marker.
pub const METADATA_MEMORY_ID: u8 = 0;

/// The number of the partition that holds the serialized heap.
pub const HEAP_MEMORY_ID: u8 = 1;

/// The number of the partition that holds the pages of the accounts, where
/// these are kept apart from the heap.
pub const ACCOUNTS_MEMORY_ID: u8 = 2;

/// The offset of the schema marker in the metadata partition.
pub const SCHEMA_MARKER_OFFSET: u64 = 0;

/// The layout version of the memory manager that can be loaded.
pub const MANAGER_LAYOUT_VERSION: u8 = 1;

/// The bytes that a managed memory starts with.
pub open spec fn manager_signature() -> Seq<u8> {
    seq![0x4du8, 0x47u8, 0x52u8]
}

/// Whether a memory of `pages` pages that starts with `prefix` holds a
/// memory manager: it is not empty and starts with the signature.
pub open spec fn bears_signature(pages: u64, prefix: Seq<u8>) -> bool {
    pages != 0 && prefix.len() >= 3 && prefix.take(3) == manager_signature()
}

/// Whether a memory of `pages` pages that starts with `prefix` holds a
/// memory manager that can be loaded: it bears the signature, and the byte
/// behind the signature is the layout version.
pub open spec fn loadable(pages: u64, prefix: Seq<u8>) -> bool {
    bears_signature(pages, prefix) && prefix.len() >= 4 && prefix[3] == MANAGER_LAYOUT_VERSION
}

/// Decides [`bears_signature`] on the size of a memory and the bytes read
/// from its start.
pub fn signature_found(pages: u64, prefix: &[u8]) -> (found: bool)
    ensures
        found == bears_signature(pages, prefix@),
{
    if pages == 0 || prefix.len() < 3 {
        return false;
    }
    proof {
        let head = prefix@.take(3);
        if prefix@[0] == 0x4d && prefix@[1] == 0x47 && prefix@[2] == 0x52 {
            assert(head =~= manager_signature());
        }
    }
    prefix[0] == 0x4d && prefix[1] == 0x47 && prefix[2] == 0x52
}

/// Decides [`loadable`] on the size of a memory and the bytes read from its
/// start.
pub fn manager_found(pages: u64, prefix: &[u8]) -> (found: bool)
    ensures
        found == loadable(pages, prefix@),
{
    signature_found(pages, prefix) && prefix.len() >= 4 && prefix[3] == MANAGER_LAYOUT_VERSION
}

/// Whether a memory manager can be started on a memory of `pages` pages
/// that starts with `prefix`: the memory bears no signature, so that a new
/// manager is written, or it holds a manager that can be loaded. On a
/// memory that bears the signature over another layout version the manager
/// does not start.
pub open spec fn startable(pages: u64, prefix: Seq<u8>) -> bool {
    !bears_signature(pages, prefix) || loadable(pages, prefix)
}

/// Whether a memory of `pages` pages bears the signature of a memory
/// manager, given what reading its first three bytes gave: a memory whose
/// start could not be read bears none.
pub fn signature_read(pages: u64, prefix: Result<Vec<u8>, MemoryError>) -> (found: bool)
    ensures
        found == match prefix {
            Ok(bytes) => bears_signature(pages, bytes@),
            Err(_) => false,
        },
{
    match prefix {
        Ok(bytes) => signature_found(pages, bytes.as_slice()),
        Err(_) => false,
    }
}

/// Whether a memory of `pages` pages holds a memory manager that can be
/// loaded, given what reading its first four bytes gave: a memory whose
/// start could not be read holds none.
pub fn manager_read(pages: u64, prefix: Result<Vec<u8>, MemoryError>) -> (found: bool)
    ensures
        found == match prefix {
            Ok(bytes) => loadable(pages, bytes@),
            Err(_) => false,
        },
{
    match prefix {
        Ok(bytes) => manager_found(pages, bytes.as_slice()),
        Err(_) => false,
    }
}

/// The start of a memory, given what reading it gave: the bytes read, and
/// none where they could not be read.
pub fn prefix_read(prefix: Result<Vec<u8>, MemoryError>) -> (bytes: Vec<u8>)
    ensures
        bytes@ == match prefix {
            Ok(read) => read@,
            Err(_) => Seq::<u8>::empty(),
        },
{
    match prefix {
        Ok(read) => read,
        Err(_) => Vec::new(),
    }
}

/// The schema label of a metadata partition, given what reading its first
/// eight bytes gave: the label that the bytes are the marker of, and none
/// where they are no marker or could not be read.
pub fn label_read(marker: Result<Vec<u8>, MemoryError>) -> (label: Option<SchemaLabel>)
    ensures
        label == match marker {
            Ok(bytes) => marked(bytes@),
            Err(_) => None,
        },
{
    match marker {
        Ok(bytes) => SchemaLabel::from_bytes(bytes.as_slice()),
        Err(_) => None,
    }
}

/// A raw memory together with what a look at it gave: its size in pages and
/// its first four bytes. The fields are private, so that the size and the
/// bytes of a value are always those that [`ProbedMemory::probe`] read from
/// the memory it holds.
pub struct ProbedMemory {
    memory: DefaultMemoryImpl,
    pages: u64,
    prefix: Vec<u8>,
}

impl ProbedMemory {
    /// The memory that was looked at.
    pub closed spec fn memory(&self) -> DefaultMemoryImpl {
        self.memory
    }

    /// The size in pages that the memory gave.
    pub closed spec fn pages(&self) -> u64 {
        self.pages
    }

    /// The first four bytes that the memory gave; none where it has no
    /// pages.
    pub closed spec fn prefix(&self) -> Seq<u8> {
        self.prefix@
    }

    /// Looks at a memory: reads its size and its first four bytes, and
    /// writes nothing.
    pub fn probe(memory: DefaultMemoryImpl) -> (probed: ProbedMemory)
        ensures
            probed.memory() == memory,
            probed.prefix().len() == 0 || probed.prefix().len() == 4,
    {
        let pages: u64 = raw_pages(&memory);
        let prefix: Vec<u8> = prefix_read(read_raw(&memory, 0, 4));
        ProbedMemory { memory, pages, prefix }
    }

    /// Whether the memory bears the signature of a memory manager.
    pub fn is_managed(&self) -> (found: bool)
        ensures
            found == bears_signature(self.pages(), self.prefix()),
    {
        signature_found(self.pages, self.prefix.as_slice())
    }

    /// Whether the memory holds a memory manager that can be loaded.
    pub fn is_loadable(&self) -> (found: bool)
        ensures
            found == loadable(self.pages(), self.prefix()),
    {
        manager_found(self.pages, self.prefix.as_slice())
    }

    /// Whether a memory manager can be started on the memory.
    pub fn is_startable(&self) -> (found: bool)
        ensures
            found == startable(self.pages(), self.prefix()),
    {
        !self.is_managed() || self.is_loadable()
    }

    /// Hands the memory back.
    pub fn into_memory(self) -> (memory: DefaultMemoryImpl)
        ensures
            memory == self.memory(),
    {
        self.memory
    }
}

impl Partitions {
    /// Determines whether the given memory is managed by a memory manager:
    /// whether it bears the signature of one. The memory is only read: its
    /// size, and its first three bytes where it has any. The answer is that
    /// of [`signature_read`] on what the memory gave.
    pub fn is_managed(memory: &DefaultMemoryImpl) -> (managed: bool) {
        signature_read(raw_pages(memory), read_raw(memory, 0, 3))
    }

    /// Determines whether the given memory holds a memory manager that can
    /// be loaded. The memory is only read: its size, and its first four
    /// bytes where it has any. The answer is that of [`manager_read`] on
    /// what the memory gave.
    pub fn is_loadable(memory: &DefaultMemoryImpl) -> (found: bool) {
        manager_read(raw_pages(memory), read_raw(memory, 0, 4))
    }

    /// `MemoryManager::init`: the manager that the memory already holds, or,
    /// where it does not bear the signature of one, a new one written over
    /// whatever was there. Nothing is claimed of the partitions it then
    /// manages. On a memory that bears the signature over another layout
    /// version the outside function stops the program, so such a memory is
    /// left out: the look at the memory must have found it startable.
    #[verifier::external_body]
    pub fn from(probed: ProbedMemory) -> (partitions: Partitions)
        requires
            startable(probed.pages(), probed.prefix()),
    {
        Partitions { memory_manager: MemoryManager::init(probed.memory) }
    }

    /// Gets the memory manager that a memory was found to hold, if it holds
    /// one that can be loaded. If not, returns the memory as it came.
    pub fn try_from_probed(probed: ProbedMemory) -> (r: Result<Partitions, DefaultMemoryImpl>)
        ensures
            r is Ok <==> loadable(probed.pages(), probed.prefix()),
            !bears_signature(probed.pages(), probed.prefix()) ==> r is Err,
            r matches Err(unmanaged) ==> unmanaged == probed.memory(),
    {
        if probed.is_loadable() {
            Ok(Self::from(probed))
        } else {
            Err(probed.into_memory())
        }
    }

    /// Gets the existing memory manager, if there is one that can be
    /// loaded. If not, returns the memory as it came: it was read and not
    /// written. The answer is that of [`Partitions::try_from_probed`] on a
    /// look at the memory.
    pub fn try_from(memory: DefaultMemoryImpl) -> (r: Result<Partitions, DefaultMemoryImpl>)
        ensures
            r matches Err(unmanaged) ==> unmanaged == memory,
    {
        Self::try_from_probed(ProbedMemory::probe(memory))
    }

    /// `MemoryManager::get`: the partition of the given number. Two calls
    /// with one number give two handles to one partition.
    #[verifier::external_body]
    pub fn get(&self, memory_id: MemoryId) -> (partition: Partition) {
        Partition { memory: self.memory_manager.get(memory_id) }
    }

    /// The schema label that the metadata partition is marked with, or
    /// `None` where it bears no marker, as on the first start. The answer
    /// is that of [`label_read`] on the first eight bytes of the partition.
    pub fn schema_label(&self) -> (label: Option<SchemaLabel>) {
        let metadata: Partition = self.get(MemoryId::new(METADATA_MEMORY_ID));
        label_read(read_partition(&metadata, SCHEMA_MARKER_OFFSET, SCHEMA_MARKER_LEN))
    }

    /// Marks the metadata partition with `label`: writes the marker of the
    /// label at its offset 0. The marking fails only where the partition
    /// cannot grow.
    pub fn set_schema_label(&mut self, label: SchemaLabel) -> (r: Result<(), MemoryError>)
        ensures
            r matches Err(e) ==> e == MemoryError::GrowFailed,
    {
        let mut metadata: Partition = self.get(MemoryId::new(METADATA_MEMORY_ID));
        let bytes: Vec<u8> = label.to_bytes();
        write_partition(&mut metadata, SCHEMA_MARKER_OFFSET, bytes.as_slice())
    }
}

} // verus!
