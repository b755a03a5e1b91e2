//! The host's durable memory, as this crate reaches it.
//!
//! What the memory holds is the host's affair: it outlives the process and
//! every handle to it shares it. So nothing here claims what a read returns
//! beyond the number of bytes, and the functions that decide on those bytes
//! take them as plain arguments.

use ic_stable_structures::memory_manager::{MemoryId, VirtualMemory};
use ic_stable_structures::reader::{OutOfBounds, Reader};
use ic_stable_structures::writer::Writer;
use ic_stable_structures::{DefaultMemoryImpl, GrowFailed, Memory};
use vstd::prelude::*;

verus! {

/// `std::cell::RefCell`, of which the host memory outside a canister is
/// made. Its contents are not visible here.
#[verifier::external_type_specification]
#[verifier::external_body]
#[verifier::reject_recursive_types(T)]
pub struct ExRefCell<T: ?Sized>(core::cell::RefCell<T>);

/// `ic_stable_structures::memory_manager::MemoryId`, the number of a
/// partition.
#[verifier::external_type_specification]
#[verifier::external_body]
pub struct ExMemoryId(MemoryId);

/// `ic_stable_structures::GrowFailed`: the memory could not be made larger.
#[verifier::external_type_specification]
#[verifier::external_body]
pub struct ExGrowFailed(GrowFailed);

/// `ic_stable_structures::reader::OutOfBounds`: a read began behind the end
/// of the memory.
#[verifier::external_type_specification]
#[verifier::external_body]
pub struct ExOutOfBounds(OutOfBounds);

/// One partition of the managed memory: a
/// `ic_stable_structures::memory_manager::VirtualMemory` over the host
/// memory, addressed from offset 0 and growing on its own.
#[verifier::external_body]
pub struct Partition {
    pub(crate) memory: VirtualMemory<DefaultMemoryImpl>,
}

/// The size of a page of memory in bytes.
pub const WASM_PAGE_SIZE: u64 = 65536;

/// The last address that a write may end at: far enough below the end of
/// the address space that rounding up to whole pages stays in range.
pub const MAX_WRITE_END: u64 = 0xffff_ffff_ffff_0000;

/// Why the memory could not be read or written.
#[derive(Clone, Copy, Debug, PartialEq, Eq, Structural)]
pub enum MemoryError {
    /// The bytes asked for do not all lie inside the memory.
    OutOfBounds,
    /// The memory could not be grown to hold the bytes.
    GrowFailed,
    /// The offset and the length together leave the address space.
    AddressOverflow,
}

/// `MemoryId::new`: the identifier of partition `id`. The number 255 is
/// reserved by the memory manager and refused.
pub assume_specification[ MemoryId::new ](id: u8) -> (memory_id: MemoryId)
    requires
        id != 255,
;

/// `Memory::size` of the raw memory: its size in pages. The number depends on
/// what the host holds, so nothing is claimed of it.
#[verifier::external_body]
pub(crate) fn raw_pages(memory: &DefaultMemoryImpl) -> (pages: u64) {
    memory.size()
}

/// `Reader::read` on the raw memory, from `offset`: fills the front of `buf`
/// with as many bytes as lie inside the memory and returns their number, or
/// fails where `offset` is at or behind the end. The length of `buf` stays.
#[verifier::external_body]
pub(crate) fn raw_read(memory: &DefaultMemoryImpl, offset: u64, buf: &mut Vec<u8>) -> (r: Result<
    usize,
    OutOfBounds,
>)
    requires
        offset + old(buf)@.len() <= u64::MAX,
    ensures
        final(buf)@.len() == old(buf)@.len(),
        r matches Ok(n) ==> n <= old(buf)@.len(),
{
    Reader::new(memory, offset).read(buf.as_mut_slice())
}

/// `Writer::write` on the raw memory, at `offset`: grows the memory as far
/// as the bytes reach and writes them, or fails without writing where the
/// memory cannot grow. The end of the write, rounded up to a page, must lie
/// in the address space.
#[verifier::external_body]
pub(crate) fn raw_write(memory: &mut DefaultMemoryImpl, offset: u64, bytes: &[u8]) -> (r: Result<
    (),
    GrowFailed,
>)
    requires
        offset + bytes@.len() <= MAX_WRITE_END,
{
    Writer::new(memory, offset).write(bytes)
}

/// `Memory::size` of a partition: its size in pages, whatever it is.
#[verifier::external_body]
pub(crate) fn partition_pages(partition: &Partition) -> (pages: u64) {
    partition.memory.size()
}

/// `Reader::read` on a partition, from `offset`; as for the raw memory.
#[verifier::external_body]
pub(crate) fn partition_read(partition: &Partition, offset: u64, buf: &mut Vec<u8>) -> (r: Result<
    usize,
    OutOfBounds,
>)
    requires
        offset + old(buf)@.len() <= u64::MAX,
    ensures
        final(buf)@.len() == old(buf)@.len(),
        r matches Ok(n) ==> n <= old(buf)@.len(),
{
    Reader::new(&partition.memory, offset).read(buf.as_mut_slice())
}

/// `Writer::write` on a partition, at `offset`: grows the partition as far
/// as the bytes reach and writes them, or fails without writing where the
/// memory manager has no buckets left for the partition. Where the memory
/// underneath refuses to grow, the manager does not return; the memory
/// outside a canister refuses only beyond what a machine holds. The end of
/// the write, rounded up to a page, must lie in the address space.
#[verifier::external_body]
pub(crate) fn partition_write(partition: &mut Partition, offset: u64, bytes: &[u8]) -> (r: Result<
    (),
    GrowFailed,
>)
    requires
        offset + bytes@.len() <= MAX_WRITE_END,
{
    Writer::new(&mut partition.memory, offset).write(bytes)
}

/// What one read gave: the bytes asked for, where all of them lay inside the
/// memory.
pub fn whole_read(buf: Vec<u8>, outcome: Result<usize, OutOfBounds>) -> (r: Result<
    Vec<u8>,
    MemoryError,
>)
    ensures
        r == match outcome {
            Ok(n) => if n == buf@.len() {
                Ok(buf)
            } else {
                Err(MemoryError::OutOfBounds)
            },
            Err(_) => Err(MemoryError::OutOfBounds),
        },
{
    match outcome {
        Ok(n) => if n == buf.len() {
            Ok(buf)
        } else {
            Err(MemoryError::OutOfBounds)
        },
        Err(_) => Err(MemoryError::OutOfBounds),
    }
}

/// Whether `len` bytes from `offset` on end inside a memory of `pages`
/// pages, and inside the address space.
pub open spec fn inside(pages: u64, offset: u64, len: usize) -> bool {
    offset + len <= pages * WASM_PAGE_SIZE && offset + len <= u64::MAX
}

/// Decides [`inside`] without leaving the range of `u64`.
pub fn lies_inside(pages: u64, offset: u64, len: usize) -> (r: bool)
    ensures
        r == inside(pages, offset, len),
{
    let len64: u64 = len as u64;
    match offset.checked_add(len64) {
        Some(end) => {
            // A memory of more pages than the address space has holds every
            // address.
            pages > u64::MAX / WASM_PAGE_SIZE || end <= pages * WASM_PAGE_SIZE
        },
        None => false,
    }
}

/// Reads exactly `len` bytes at `offset` of the raw memory. The read is
/// refused where the memory is too small for it, before any buffer is made.
pub fn read_raw(memory: &DefaultMemoryImpl, offset: u64, len: usize) -> (r: Result<
    Vec<u8>,
    MemoryError,
>)
    ensures
        match r {
            Ok(bytes) => bytes@.len() == len && offset + len <= u64::MAX,
            Err(e) => e == MemoryError::OutOfBounds,
        },
{
    if !lies_inside(raw_pages(memory), offset, len) {
        return Err(MemoryError::OutOfBounds);
    }
    let mut buf: Vec<u8> = vec![0u8; len];
    let outcome = raw_read(memory, offset, &mut buf);
    whole_read(buf, outcome)
}

/// Reads exactly `len` bytes at `offset` of a partition; as [`read_raw`].
pub fn read_partition(partition: &Partition, offset: u64, len: usize) -> (r: Result<
    Vec<u8>,
    MemoryError,
>)
    ensures
        match r {
            Ok(bytes) => bytes@.len() == len && offset + len <= u64::MAX,
            Err(e) => e == MemoryError::OutOfBounds,
        },
{
    if !lies_inside(partition_pages(partition), offset, len) {
        return Err(MemoryError::OutOfBounds);
    }
    let mut buf: Vec<u8> = vec![0u8; len];
    let outcome = partition_read(partition, offset, &mut buf);
    whole_read(buf, outcome)
}

/// What one write gave.
pub fn write_outcome(outcome: Result<(), GrowFailed>) -> (r: Result<(), MemoryError>)
    ensures
        r == match outcome {
            Ok(_) => Ok::<(), MemoryError>(()),
            Err(_) => Err(MemoryError::GrowFailed),
        },
{
    match outcome {
        Ok(_) => Ok(()),
        Err(_) => Err(MemoryError::GrowFailed),
    }
}

/// Whether a write of `len` bytes at `offset` stays in the address space.
pub open spec fn writable(offset: u64, len: usize) -> bool {
    offset + len <= MAX_WRITE_END
}

/// Decides [`writable`].
pub fn can_write(offset: u64, len: usize) -> (r: bool)
    ensures
        r == writable(offset, len),
{
    offset <= MAX_WRITE_END && len as u64 <= MAX_WRITE_END - offset
}

/// Writes `bytes` at `offset` of the raw memory, growing it where needed.
/// A write that leaves the address space is refused before the memory is
/// touched.
pub fn write_raw(memory: &mut DefaultMemoryImpl, offset: u64, bytes: &[u8]) -> (r: Result<
    (),
    MemoryError,
>)
    ensures
        !writable(offset, bytes@.len() as usize) ==> r == Err::<(), MemoryError>(
            MemoryError::AddressOverflow,
        ) && *final(memory) == *old(memory),
        r is Err && writable(offset, bytes@.len() as usize) ==> r == Err::<(), MemoryError>(
            MemoryError::GrowFailed,
        ),
{
    if !can_write(offset, bytes.len()) {
        return Err(MemoryError::AddressOverflow);
    }
    write_outcome(raw_write(memory, offset, bytes))
}

/// Writes `bytes` at `offset` of a partition; as [`write_raw`].
pub fn write_partition(partition: &mut Partition, offset: u64, bytes: &[u8]) -> (r: Result<
    (),
    MemoryError,
>)
    ensures
        !writable(offset, bytes@.len() as usize) ==> r == Err::<(), MemoryError>(
            MemoryError::AddressOverflow,
        ) && *final(partition) == *old(partition),
        r is Err && writable(offset, bytes@.len() as usize) ==> r == Err::<(), MemoryError>(
            MemoryError::GrowFailed,
        ),
{
    if !can_write(offset, bytes.len()) {
        return Err(MemoryError::AddressOverflow);
    }
    write_outcome(partition_write(partition, offset, bytes))
}

} // verus!
