//! Tests of the state as a whole and of its way through durable memory.
use ic_stable_structures::memory_manager::MemoryId;
use ic_stable_structures::{DefaultMemoryImpl, Memory};
use stable_accounts::accounts_store::schema::s0::heap::HeapPages;
use stable_accounts::accounts_store::schema::s0::AccountsDbS0Trait;
use stable_accounts::accounts_store::schema::{SchemaLabel, SCHEMA_MARKER_LEN};
use stable_accounts::accounts_store::{Account, NamedCanister};
use stable_accounts::stable_memory::{
    can_write, lies_inside, read_partition, read_raw, write_partition, write_raw, MemoryError,
    MAX_WRITE_END, WASM_PAGE_SIZE,
};
use stable_accounts::state::partitions::{
    label_read, manager_found, manager_read, prefix_read, signature_found, signature_read,
    Partitions, ProbedMemory, ACCOUNTS_MEMORY_ID, HEAP_MEMORY_ID, MANAGER_LAYOUT_VERSION,
    METADATA_MEMORY_ID, SCHEMA_MARKER_OFFSET,
};
use stable_accounts::state::with_accounts_in_stable_memory::{
    blob_len, blob_read, frame, length_field, length_read, memory_failure, read_behind,
    read_behind_raw, read_framed, read_framed_raw, FRAME_OFFSET, LENGTH_FIELD_LEN,
    write_framed, write_framed_raw,
};
use stable_accounts::state::{choose_loader, Loader, State, StateError};
use std::collections::HashMap;

fn account(index: u64, num_canisters: u64) -> Account {
    Account {
        principal: Some(index.to_le_bytes().to_vec()),
        account_identifier: vec![index as u8; 28],
        default_account_transactions: vec![index],
        sub_accounts: HashMap::new(),
        hardware_wallet_accounts: Vec::new(),
        canisters: (0..num_canisters)
            .map(|i| NamedCanister {
                name: format!("canister_{index}_{i}"),
                canister_id: i.to_be_bytes().to_vec(),
            })
            .collect(),
    }
}

fn state_with(accounts: &[(Vec<u8>, Account)]) -> State {
    let mut state = State::new();
    for (key, account) in accounts {
        assert_eq!(state.accounts.s0_insert_account(key, account.clone()), Ok(()));
    }
    state
}

fn many_accounts() -> Vec<(Vec<u8>, Account)> {
    let mut accounts: Vec<(Vec<u8>, Account)> =
        (0..20u64).map(|i| (vec![i as u8, 1], account(i, i))).collect();
    // One account whose canisters take several pages.
    accounts.push((vec![200], account(200, 900)));
    accounts
}

/// Starts a memory manager on a memory that was found fit for it.
fn partitions_on(memory: DefaultMemoryImpl) -> Partitions {
    let probed = ProbedMemory::probe(memory);
    assert!(probed.is_startable());
    Partitions::from(probed)
}

/// A copy of what the memory holds.
fn contents(memory: &DefaultMemoryImpl) -> Vec<u8> {
    memory.borrow().clone()
}

fn memory_of(bytes: &[u8]) -> DefaultMemoryImpl {
    let memory = DefaultMemoryImpl::default();
    let pages = (bytes.len() as u64).div_ceil(WASM_PAGE_SIZE);
    assert_eq!(memory.grow(pages), 0);
    memory.write(0, bytes);
    memory
}

#[test]
fn a_new_state_is_empty() {
    let state = State::new();
    assert_eq!(state.accounts.s0_accounts_len(), 0);
    assert_eq!(state.block_height_synced_up_to, None);
    assert_eq!(state.last_ledger_sync_timestamp_nanos, 0);
    let mut expected = vec![0u8; 8];
    expected.push(0);
    expected.extend([0; 8]);
    assert_eq!(state.encode(), expected);
}

#[test]
fn a_state_is_written_field_by_field() {
    let mut state = State::new();
    assert_eq!(state.accounts.s0_insert_bytes(&[5], &[7, 8]), Ok(()));
    state.block_height_synced_up_to = Some(0x0102);
    state.last_ledger_sync_timestamp_nanos = 3;
    let mut expected = vec![0, 0, 0, 0, 0, 0, 0, 1];
    expected.extend([0, 0, 0, 0, 0, 0, 0, 1, 5, 0, 0]);
    expected.extend([0, 0, 0, 0, 0, 0, 0, 2, 7, 8]);
    expected.extend([1, 0, 0, 0, 0, 0, 0, 1, 2]);
    expected.extend([0, 0, 0, 0, 0, 0, 0, 3]);
    assert_eq!(state.encode(), expected);
    assert_eq!(State::decode(expected), Ok(state));
}

#[test]
fn a_state_without_accounts_is_read_back() {
    let mut state = State::new();
    state.last_ledger_sync_timestamp_nanos = u64::MAX;
    assert_eq!(State::decode(state.encode()), Ok(state));
}

#[test]
fn a_state_with_one_account_is_read_back() {
    let mut state = state_with(&[(vec![1, 2, 3], account(1, 5))]);
    state.block_height_synced_up_to = Some(12345);
    let decoded = State::decode(state.encode()).unwrap();
    assert_eq!(decoded, state);
    assert_eq!(decoded.accounts.s0_get_account(&[1, 2, 3]), Some(account(1, 5)));
    // The account has no sub-accounts.
    assert!(decoded.accounts.s0_get_account(&[1, 2, 3]).unwrap().sub_accounts.is_empty());
}

#[test]
fn a_state_with_many_accounts_is_read_back() {
    let accounts = many_accounts();
    let state = state_with(&accounts);
    assert!(state.accounts.page_len() > accounts.len());
    let decoded = State::decode(state.encode()).unwrap();
    assert_eq!(decoded, state);
    assert_eq!(decoded.accounts.s0_accounts_len(), accounts.len() as u64);
    for (key, account) in &accounts {
        assert_eq!(decoded.accounts.s0_get_account(key), Some(account.clone()));
    }
}

#[test]
fn damaged_states_are_refused_as_a_whole() {
    let state = state_with(&[(vec![1], account(1, 3)), (vec![2], account(2, 0))]);
    let bytes = state.encode();
    for cut in 0..bytes.len() {
        assert_eq!(State::decode(bytes[..cut].to_vec()), Err(StateError::Malformed));
    }
    let mut longer = bytes.clone();
    longer.push(0);
    assert_eq!(State::decode(longer), Err(StateError::Malformed));
    assert_eq!(State::decode(Vec::new()), Err(StateError::Malformed));
}

#[test]
fn pages_out_of_order_are_no_store() {
    let mut first = HeapPages::new();
    assert_eq!(first.s0_insert_bytes(&[1], &[9]), Ok(()));
    let mut both = HeapPages::new();
    assert_eq!(both.s0_insert_bytes(&[1], &[9]), Ok(()));
    assert_eq!(both.s0_insert_bytes(&[2], &[9]), Ok(()));
    let bytes = both.to_bytes();
    assert_eq!(HeapPages::from_bytes(&bytes), Some(both));
    // The two entries have the same length: swap them, and leave the count.
    let entry = (bytes.len() - 8) / 2;
    let mut swapped = bytes[..8].to_vec();
    swapped.extend_from_slice(&bytes[8 + entry..]);
    swapped.extend_from_slice(&bytes[8..8 + entry]);
    assert_eq!(HeapPages::from_bytes(&swapped), None);
    // Twice the same entry.
    let mut twice = bytes[..8].to_vec();
    twice.extend_from_slice(&bytes[8..8 + entry]);
    twice.extend_from_slice(&bytes[8..8 + entry]);
    assert_eq!(HeapPages::from_bytes(&twice), None);
    assert_eq!(HeapPages::from_bytes(&first.to_bytes()), Some(first));
}

#[test]
fn a_page_over_capacity_is_no_store() {
    let mut bytes = vec![0, 0, 0, 0, 0, 0, 0, 1];
    bytes.extend([0, 0, 0, 0, 0, 0, 0, 1, 5, 0, 0]);
    bytes.extend([0, 0, 0, 0, 0, 0, 4, 1]);
    bytes.extend(vec![0; 1025]);
    assert_eq!(HeapPages::from_bytes(&bytes), None);
    bytes[26] = 0;
    bytes.pop();
    assert!(HeapPages::from_bytes(&bytes).is_some());
}

#[test]
fn the_length_field_is_eight_bytes_most_significant_first() {
    assert_eq!(length_field(0), vec![0; 8]);
    assert_eq!(length_field(0x0102), vec![0, 0, 0, 0, 0, 0, 1, 2]);
    assert_eq!(blob_len(&[0; 8]), Some(0));
    assert_eq!(blob_len(&[255; 8]), Some(usize::MAX));
    assert_eq!(blob_len(&[0, 0, 0, 0, 0, 0, 1, 2]), Some(0x0102));
    assert_eq!(blob_len(&length_field(usize::MAX)), Some(usize::MAX));
}

#[test]
fn errors_of_the_memory_are_mapped() {
    assert_eq!(memory_failure(MemoryError::OutOfBounds), StateError::OutOfBounds);
    assert_eq!(memory_failure(MemoryError::GrowFailed), StateError::GrowFailed);
    assert_eq!(memory_failure(MemoryError::AddressOverflow), StateError::TooLarge);
}

#[test]
fn bounds_of_reads_and_writes() {
    assert!(lies_inside(1, 0, 65536));
    assert!(!lies_inside(1, 1, 65536));
    assert!(lies_inside(1, 65536, 0));
    assert!(!lies_inside(0, 0, 1));
    assert!(lies_inside(0, 0, 0));
    assert!(!lies_inside(u64::MAX, u64::MAX, 1));
    assert!(lies_inside(u64::MAX, u64::MAX - 1, 1));
    assert_eq!(MAX_WRITE_END, u64::MAX - 65535);
    assert!(can_write(8, 100));
    assert!(can_write(MAX_WRITE_END, 0));
    assert!(can_write(MAX_WRITE_END - 1, 1));
    assert!(!can_write(MAX_WRITE_END, 1));
    assert!(!can_write(u64::MAX, 0));
}

#[test]
fn raw_memory_is_read_and_written() {
    let mut memory = DefaultMemoryImpl::default();
    assert_eq!(read_raw(&memory, 0, 0), Ok(vec![]));
    assert_eq!(read_raw(&memory, 0, 1), Err(MemoryError::OutOfBounds));
    assert_eq!(write_raw(&mut memory, 3, &[1, 2, 3]), Ok(()));
    assert_eq!(memory.size(), 1);
    assert_eq!(read_raw(&memory, 2, 5), Ok(vec![0, 1, 2, 3, 0]));
    assert_eq!(read_raw(&memory, 65533, 3), Ok(vec![0, 0, 0]));
    assert_eq!(read_raw(&memory, 65534, 3), Err(MemoryError::OutOfBounds));
    assert_eq!(read_raw(&memory, 65536, 1), Err(MemoryError::OutOfBounds));
    assert_eq!(read_raw(&memory, u64::MAX, 2), Err(MemoryError::OutOfBounds));
    assert_eq!(write_raw(&mut memory, 65535, &[9, 9]), Ok(()));
    assert_eq!(memory.size(), 2);
    assert_eq!(read_raw(&memory, 65535, 2), Ok(vec![9, 9]));
    let before = contents(&memory);
    assert_eq!(write_raw(&mut memory, u64::MAX - 1, &[1, 2]), Err(MemoryError::AddressOverflow));
    assert_eq!(write_raw(&mut memory, MAX_WRITE_END, &[1]), Err(MemoryError::AddressOverflow));
    assert_eq!(contents(&memory), before);
}

#[test]
fn partitions_are_read_and_written_apart() {
    let partitions = partitions_on(DefaultMemoryImpl::default());
    let mut first = partitions.get(MemoryId::new(5));
    let mut second = partitions.get(MemoryId::new(6));
    assert_eq!(read_partition(&first, 0, 1), Err(MemoryError::OutOfBounds));
    assert_eq!(write_partition(&mut first, 0, &[1, 2, 3]), Ok(()));
    assert_eq!(read_partition(&second, 0, 3), Err(MemoryError::OutOfBounds));
    assert_eq!(write_partition(&mut second, 1, &[4, 5, 6]), Ok(()));
    assert_eq!(read_partition(&first, 0, 4), Ok(vec![1, 2, 3, 0]));
    assert_eq!(read_partition(&second, 0, 4), Ok(vec![0, 4, 5, 6]));
    // Another handle to the same partition sees what was written.
    assert_eq!(read_partition(&partitions.get(MemoryId::new(5)), 1, 2), Ok(vec![2, 3]));
    assert_eq!(read_partition(&first, 65536, 1), Err(MemoryError::OutOfBounds));
    assert_eq!(
        write_partition(&mut first, MAX_WRITE_END, &[1]),
        Err(MemoryError::AddressOverflow)
    );
    // A write over a page boundary grows the partition.
    assert_eq!(write_partition(&mut first, 65530, &[7; 10]), Ok(()));
    assert_eq!(read_partition(&first, 65530, 10), Ok(vec![7; 10]));
}

#[test]
fn the_signature_of_a_memory_manager_is_recognised() {
    assert!(signature_found(1, b"MGR"));
    assert!(signature_found(1, b"MGR\x01rest"));
    assert!(!signature_found(0, b"MGR"));
    assert!(!signature_found(1, b"MG"));
    assert!(!signature_found(1, b"MGS"));
    assert!(!signature_found(1, b"mgr"));
    assert!(!signature_found(1, &[0, 0, 0]));
    assert_eq!((METADATA_MEMORY_ID, HEAP_MEMORY_ID, ACCOUNTS_MEMORY_ID), (0, 1, 2));
}

#[test]
fn an_unmanaged_memory_is_detected_and_left_as_it_is() {
    let empty = DefaultMemoryImpl::default();
    assert!(!Partitions::is_managed(&empty));
    assert_eq!(contents(&empty), Vec::<u8>::new());

    let legacy = memory_of(&[0, 0, 0, 0, 0, 0, 0, 3, 1, 2, 3]);
    let before = contents(&legacy);
    assert!(!Partitions::is_managed(&legacy));
    assert_eq!(contents(&legacy), before);
    match Partitions::try_from(legacy.clone()) {
        Ok(_) => panic!("no memory manager was written"),
        Err(unmanaged) => {
            assert!(std::rc::Rc::ptr_eq(&unmanaged, &legacy));
            assert_eq!(contents(&unmanaged), before);
        }
    }
    assert_eq!(contents(&legacy), before);
}

#[test]
fn a_managed_memory_is_detected_and_taken_over() {
    let memory = DefaultMemoryImpl::default();
    let partitions = partitions_on(memory.clone());
    assert!(Partitions::is_managed(&memory));
    assert_eq!(&contents(&memory)[..3], b"MGR");
    let mut heap = partitions.get(MemoryId::new(HEAP_MEMORY_ID));
    assert_eq!(write_partition(&mut heap, 0, &[1, 2, 3]), Ok(()));
    let before = contents(&memory);
    let recovered = match Partitions::try_from(memory.clone()) {
        Ok(recovered) => recovered,
        Err(_) => panic!("the memory holds a memory manager"),
    };
    assert_eq!(contents(&memory), before);
    let heap = recovered.get(MemoryId::new(HEAP_MEMORY_ID));
    assert_eq!(read_partition(&heap, 0, 3), Ok(vec![1, 2, 3]));
}

#[test]
fn the_schema_marker_is_eight_bytes() {
    assert_eq!(SCHEMA_MARKER_LEN, 8);
    assert_eq!(SchemaLabel::Blob.to_bytes(), vec![0, 0, 0, 0, 255, 255, 255, 255]);
    assert_eq!(
        SchemaLabel::AccountsInStableMemory.to_bytes(),
        vec![0, 0, 0, 1, 255, 255, 255, 254]
    );
    for label in [SchemaLabel::Blob, SchemaLabel::AccountsInStableMemory] {
        let mut bytes = label.to_bytes();
        assert_eq!(SchemaLabel::from_bytes(&bytes), Some(label));
        bytes.extend([1, 2, 3]);
        assert_eq!(SchemaLabel::from_bytes(&bytes), Some(label));
        assert_eq!(SchemaLabel::from_bytes(&bytes[..7]), None);
    }
}

#[test]
fn bytes_that_are_no_marker_are_no_label() {
    assert_eq!(SchemaLabel::from_bytes(&[0; 8]), None);
    assert_eq!(SchemaLabel::from_bytes(&[0; 65536]), None);
    assert_eq!(SchemaLabel::from_bytes(&[]), None);
    assert_eq!(SchemaLabel::from_bytes(&[0, 0, 0, 2, 255, 255, 255, 253]), None);
    assert_eq!(SchemaLabel::from_bytes(&[0, 0, 0, 1, 255, 255, 255, 255]), None);
    assert_eq!(SchemaLabel::from_bytes(&[0, 0, 0, 0, 255, 255, 255, 254]), None);
    assert_eq!(SchemaLabel::from_bytes(&[1, 0, 0, 0, 254, 255, 255, 255]), None);
    assert_eq!(SchemaLabel::from_bytes(&[255; 8]), None);
}

#[test]
fn the_schema_label_is_unset_until_it_is_set() {
    let memory = DefaultMemoryImpl::default();
    let mut partitions = partitions_on(memory.clone());
    assert_eq!(partitions.schema_label(), None);
    assert_eq!(partitions.set_schema_label(SchemaLabel::AccountsInStableMemory), Ok(()));
    assert_eq!(partitions.schema_label(), Some(SchemaLabel::AccountsInStableMemory));
    assert_eq!(partitions.set_schema_label(SchemaLabel::Blob), Ok(()));
    assert_eq!(partitions.schema_label(), Some(SchemaLabel::Blob));
    let metadata = partitions.get(MemoryId::new(METADATA_MEMORY_ID));
    assert_eq!(read_partition(&metadata, 0, 8), Ok(SchemaLabel::Blob.to_bytes()));
    // The label survives a restart.
    let recovered = partitions_on(memory);
    assert_eq!(recovered.schema_label(), Some(SchemaLabel::Blob));
    // A metadata partition that holds something else bears no label.
    let mut metadata = recovered.get(MemoryId::new(METADATA_MEMORY_ID));
    assert_eq!(write_partition(&mut metadata, 0, &[9; 8]), Ok(()));
    assert_eq!(recovered.schema_label(), None);
}

#[test]
fn the_loader_follows_the_memory_manager_and_the_marker() {
    for label in [None, Some(SchemaLabel::Blob), Some(SchemaLabel::AccountsInStableMemory)] {
        assert_eq!(choose_loader(false, label), Loader::LegacyBlob);
    }
    assert_eq!(choose_loader(true, None), Loader::Nothing);
    assert_eq!(choose_loader(true, Some(SchemaLabel::Blob)), Loader::HeapBlob);
    assert_eq!(
        choose_loader(true, Some(SchemaLabel::AccountsInStableMemory)),
        Loader::HeapBlobAndAccountPages
    );
}

#[test]
fn a_blob_is_framed_by_its_length() {
    let mut memory = DefaultMemoryImpl::default();
    assert_eq!(write_framed_raw(&mut memory, &[7, 8, 9]), Ok(()));
    assert_eq!(&contents(&memory)[..12], &[0, 0, 0, 0, 0, 0, 0, 3, 7, 8, 9, 0]);
    assert_eq!(read_framed_raw(&memory), Ok(vec![7, 8, 9]));
    assert_eq!(write_framed_raw(&mut memory, &[]), Ok(()));
    assert_eq!(read_framed_raw(&memory), Ok(vec![]));

    let partitions = partitions_on(DefaultMemoryImpl::default());
    let mut partition = partitions.get(MemoryId::new(3));
    let blob = vec![5u8; 70000];
    assert_eq!(write_framed(&mut partition, &blob), Ok(()));
    assert_eq!(read_partition(&partition, 0, 9), Ok(vec![0, 0, 0, 0, 0, 1, 0x11, 0x70, 5]));
    assert_eq!(read_framed(&partition), Ok(blob));
}

#[test]
fn a_frame_that_the_memory_cannot_hold_is_refused() {
    assert_eq!(read_framed_raw(&DefaultMemoryImpl::default()), Err(StateError::OutOfBounds));
    assert_eq!(read_framed_raw(&memory_of(&[255; 8])), Err(StateError::OutOfBounds));
    assert_eq!(
        read_framed_raw(&memory_of(&[0, 0, 0, 0, 0, 1, 0, 0])),
        Err(StateError::OutOfBounds)
    );
    assert_eq!(
        read_framed_raw(&memory_of(&[0, 0, 0, 0, 0, 0, 255, 248])),
        Ok(vec![0; 65528])
    );
    let partitions = partitions_on(DefaultMemoryImpl::default());
    assert_eq!(read_framed(&partitions.get(MemoryId::new(9))), Err(StateError::OutOfBounds));
}

#[test]
fn a_saved_state_is_recovered_from_raw_memory() {
    let mut state = state_with(&many_accounts());
    state.block_height_synced_up_to = Some(99);
    let memory = DefaultMemoryImpl::default();
    assert_eq!(state.save_heap_to_managed_memory(memory.clone()), Ok(()));
    let bytes = state.encode();
    let stored = contents(&memory);
    assert_eq!(&stored[..8], (bytes.len() as u64).to_be_bytes());
    assert_eq!(&stored[8..8 + bytes.len()], &bytes[..]);
    assert_eq!(State::recover_heap_from_raw_memory(&memory), Ok(state));
}

#[test]
fn a_saved_state_is_recovered_from_a_partition() {
    let state = state_with(&many_accounts());
    let memory = DefaultMemoryImpl::default();
    let partitions = partitions_on(memory.clone());
    let mut heap = partitions.get(MemoryId::new(HEAP_MEMORY_ID));
    assert_eq!(state.save_heap_to_partition(&mut heap), Ok(()));
    assert_eq!(State::recover_heap_from_managed_memory(heap), Ok(state));
    // After a restart.
    let recovered = partitions_on(memory);
    let state = state_with(&many_accounts());
    assert_eq!(
        State::recover_heap_from_managed_memory(recovered.get(MemoryId::new(HEAP_MEMORY_ID))),
        Ok(state)
    );
}

#[test]
fn saving_what_was_recovered_changes_nothing() {
    let state = state_with(&many_accounts());
    let memory = DefaultMemoryImpl::default();
    assert_eq!(state.save_heap_to_managed_memory(memory.clone()), Ok(()));
    let before = contents(&memory);
    let recovered = State::recover_heap_from_raw_memory(&memory).unwrap();
    assert_eq!(recovered.save_heap_to_managed_memory(memory.clone()), Ok(()));
    assert_eq!(contents(&memory), before);
}

#[test]
fn recovery_fails_on_memory_that_holds_no_state() {
    assert_eq!(
        State::recover_heap_from_raw_memory(&DefaultMemoryImpl::default()),
        Err(StateError::OutOfBounds)
    );
    assert_eq!(
        State::recover_heap_from_raw_memory(&memory_of(&[0, 0, 0, 0, 0, 0, 0, 3, 1, 2, 3])),
        Err(StateError::Malformed)
    );
    assert_eq!(
        State::recover_heap_from_raw_memory(&memory_of(&[0; 16])),
        Err(StateError::Malformed)
    );
    assert_eq!(
        State::recover_heap_from_raw_memory(&memory_of(&[0, 0, 0, 0, 1, 0, 0, 0])),
        Err(StateError::OutOfBounds)
    );
    let partitions = partitions_on(DefaultMemoryImpl::default());
    assert_eq!(
        State::recover_heap_from_managed_memory(partitions.get(MemoryId::new(HEAP_MEMORY_ID))),
        Err(StateError::OutOfBounds)
    );
    assert_eq!(State::from_blob(Err(StateError::OutOfBounds)), Err(StateError::OutOfBounds));
    assert_eq!(State::from_blob(Ok(vec![1])), Err(StateError::Malformed));
    assert_eq!(State::from_blob(Ok(State::new().encode())), Ok(State::new()));
}

#[test]
fn a_legacy_memory_is_restored_without_being_written() {
    let mut state = state_with(&many_accounts());
    state.last_ledger_sync_timestamp_nanos = 5;
    let memory = DefaultMemoryImpl::default();
    assert_eq!(state.save_heap_to_managed_memory(memory.clone()), Ok(()));
    let before = contents(&memory);
    let restored = State::restore(memory.clone());
    assert_eq!(restored.loader, Loader::LegacyBlob);
    assert_eq!(restored.state, Ok(state));
    match restored.partitions {
        Ok(_) => panic!("the memory holds no memory manager"),
        Err(unmanaged) => assert!(std::rc::Rc::ptr_eq(&unmanaged, &memory)),
    }
    assert_eq!(contents(&memory), before);
}

#[test]
fn an_empty_memory_is_restored_as_legacy_and_fails() {
    let restored = State::restore(DefaultMemoryImpl::default());
    assert_eq!(restored.loader, Loader::LegacyBlob);
    assert_eq!(restored.state, Err(StateError::OutOfBounds));
    assert!(restored.partitions.is_err());
}

#[test]
fn a_partitioned_memory_without_marker_holds_no_state_yet() {
    let memory = DefaultMemoryImpl::default();
    drop(partitions_on(memory.clone()));
    let restored = State::restore(memory);
    assert_eq!(restored.loader, Loader::Nothing);
    assert_eq!(restored.state, Ok(State::new()));
    assert!(restored.partitions.is_ok());
}

#[test]
fn a_state_persisted_as_one_blob_is_restored() {
    let mut state = state_with(&many_accounts());
    state.block_height_synced_up_to = Some(7);
    let memory = DefaultMemoryImpl::default();
    let mut partitions = partitions_on(memory.clone());
    assert_eq!(state.persist(&mut partitions, SchemaLabel::Blob), Ok(()));
    assert_eq!(partitions.schema_label(), Some(SchemaLabel::Blob));
    drop(partitions);
    let restored = State::restore(memory);
    assert_eq!(restored.loader, Loader::HeapBlob);
    assert_eq!(restored.state, Ok(state));
}

#[test]
fn a_state_persisted_with_its_accounts_apart_is_restored() {
    let mut state = state_with(&many_accounts());
    state.block_height_synced_up_to = Some(7);
    state.last_ledger_sync_timestamp_nanos = 8;
    let memory = DefaultMemoryImpl::default();
    let mut partitions = partitions_on(memory.clone());
    assert_eq!(state.persist(&mut partitions, SchemaLabel::AccountsInStableMemory), Ok(()));
    // The heap partition holds the state without accounts, the accounts
    // partition the pages.
    let heap = State::recover_heap_from_managed_memory(
        partitions.get(MemoryId::new(HEAP_MEMORY_ID)),
    )
    .unwrap();
    assert_eq!(heap.accounts.page_len(), 0);
    assert_eq!(heap.block_height_synced_up_to, Some(7));
    assert_eq!(heap.encode(), state.encode_without_accounts());
    assert_eq!(
        read_framed(&partitions.get(MemoryId::new(ACCOUNTS_MEMORY_ID))),
        Ok(state.accounts.to_bytes())
    );
    drop(partitions);
    let restored = State::restore(memory);
    assert_eq!(restored.loader, Loader::HeapBlobAndAccountPages);
    assert_eq!(restored.state, Ok(state));
}

#[test]
fn a_legacy_memory_is_migrated_by_restoring_and_persisting() {
    let state = state_with(&many_accounts());
    let legacy = DefaultMemoryImpl::default();
    assert_eq!(state.save_heap_to_managed_memory(legacy.clone()), Ok(()));
    let restored = State::restore(legacy);
    let memory = match restored.partitions {
        Ok(_) => panic!("the memory holds no memory manager"),
        Err(memory) => memory,
    };
    let loaded = restored.state.unwrap();
    let mut partitions = partitions_on(memory.clone());
    assert_eq!(loaded.persist(&mut partitions, SchemaLabel::AccountsInStableMemory), Ok(()));
    drop(partitions);
    let again = State::restore(memory);
    assert_eq!(again.loader, Loader::HeapBlobAndAccountPages);
    assert_eq!(again.state, Ok(state));
}

#[test]
fn a_state_is_assembled_from_its_heap_and_its_accounts() {
    let accounts = state_with(&many_accounts()).accounts;
    let mut heap = State::new();
    heap.block_height_synced_up_to = Some(3);
    let whole = State::assemble(Ok(heap), Ok(accounts)).unwrap();
    assert_eq!(whole.block_height_synced_up_to, Some(3));
    assert_eq!(whole.accounts, state_with(&many_accounts()).accounts);
    assert_eq!(
        State::assemble(Err(StateError::OutOfBounds), Err(StateError::Malformed)),
        Err(StateError::OutOfBounds)
    );
    assert_eq!(
        State::assemble(Ok(State::new()), Err(StateError::Malformed)),
        Err(StateError::Malformed)
    );
    assert_eq!(
        State::assemble(Err(StateError::Malformed), Ok(HeapPages::new())),
        Err(StateError::Malformed)
    );
    assert_eq!(HeapPages::from_blob(Err(StateError::OutOfBounds)), Err(StateError::OutOfBounds));
    assert_eq!(HeapPages::from_blob(Ok(vec![1])), Err(StateError::Malformed));
    assert_eq!(HeapPages::from_blob(Ok(vec![0; 8])), Ok(HeapPages::new()));
}

#[test]
fn a_memory_that_cannot_grow_refuses_the_write() {
    let mut memory = DefaultMemoryImpl::default();
    assert_eq!(write_raw(&mut memory, 1 << 63, &[1]), Err(MemoryError::GrowFailed));
    assert_eq!(contents(&memory), Vec::<u8>::new());
    let partitions = partitions_on(DefaultMemoryImpl::default());
    let mut partition = partitions.get(MemoryId::new(7));
    assert_eq!(write_partition(&mut partition, 1 << 40, &[1]), Err(MemoryError::GrowFailed));
    assert_eq!(read_partition(&partition, 0, 1), Err(MemoryError::OutOfBounds));
}

#[test]
fn a_memory_manager_of_another_layout_version_is_not_loaded() {
    assert_eq!(MANAGER_LAYOUT_VERSION, 1);
    assert!(manager_found(1, b"MGR\x01"));
    assert!(manager_found(1, b"MGR\x01\x00\x00"));
    assert!(!manager_found(1, b"MGR\x02"));
    assert!(!manager_found(1, b"MGR"));
    assert!(!manager_found(0, b"MGR\x01"));
    assert!(!manager_found(1, b"BTR\x01"));

    let managed = DefaultMemoryImpl::default();
    drop(partitions_on(managed.clone()));
    assert!(Partitions::is_loadable(&managed));

    let foreign = memory_of(b"MGR\x02 and whatever follows");
    let before = contents(&foreign);
    assert!(Partitions::is_managed(&foreign));
    assert!(!Partitions::is_loadable(&foreign));
    assert!(Partitions::try_from(foreign.clone()).is_err());
    let restored = State::restore(foreign.clone());
    assert_eq!(restored.loader, Loader::LegacyBlob);
    assert!(restored.state.is_err());
    assert_eq!(contents(&foreign), before);
}

#[test]
fn what_a_read_of_the_start_gave_decides_on_the_manager() {
    assert!(signature_read(1, Ok(b"MGR".to_vec())));
    assert!(signature_read(7, Ok(b"MGR\x02".to_vec())));
    assert!(!signature_read(0, Ok(b"MGR".to_vec())));
    assert!(!signature_read(1, Ok(b"MGX".to_vec())));
    assert!(!signature_read(1, Ok(Vec::new())));
    assert!(!signature_read(1, Err(MemoryError::OutOfBounds)));
    assert!(manager_read(1, Ok(b"MGR\x01".to_vec())));
    assert!(!manager_read(1, Ok(b"MGR\x02".to_vec())));
    assert!(!manager_read(1, Ok(b"MGR".to_vec())));
    assert!(!manager_read(0, Ok(b"MGR\x01".to_vec())));
    assert!(!manager_read(1, Err(MemoryError::OutOfBounds)));
}

#[test]
fn what_a_read_of_the_marker_gave_decides_on_the_label() {
    assert_eq!(label_read(Ok(vec![0, 0, 0, 0, 255, 255, 255, 255])), Some(SchemaLabel::Blob));
    assert_eq!(
        label_read(Ok(vec![0, 0, 0, 1, 255, 255, 255, 254])),
        Some(SchemaLabel::AccountsInStableMemory)
    );
    assert_eq!(label_read(Ok(vec![0; 8])), None);
    assert_eq!(label_read(Ok(vec![0, 0, 0, 1])), None);
    assert_eq!(label_read(Err(MemoryError::OutOfBounds)), None);
}

#[test]
fn what_a_read_of_the_frame_gave_decides_on_the_blob() {
    assert_eq!(length_read(Ok(vec![0, 0, 0, 0, 0, 0, 1, 2])), Ok(0x0102));
    assert_eq!(length_read(Ok(vec![0; 8])), Ok(0));
    assert_eq!(length_read(Ok(vec![255; 8])), Ok(usize::MAX));
    assert_eq!(length_read(Ok(vec![0; 7])), Err(StateError::OutOfBounds));
    assert_eq!(length_read(Ok(vec![0; 9])), Err(StateError::OutOfBounds));
    assert_eq!(length_read(Err(MemoryError::OutOfBounds)), Err(StateError::OutOfBounds));
    assert_eq!(blob_read(Ok(vec![1, 2, 3])), Ok(vec![1, 2, 3]));
    assert_eq!(blob_read(Ok(Vec::new())), Ok(Vec::new()));
    assert_eq!(blob_read(Err(MemoryError::OutOfBounds)), Err(StateError::OutOfBounds));
}

#[test]
fn a_look_at_a_memory_tells_what_it_holds() {
    let empty = ProbedMemory::probe(DefaultMemoryImpl::default());
    assert!(!empty.is_managed());
    assert!(!empty.is_loadable());
    assert!(empty.is_startable());
    assert_eq!(contents(&empty.into_memory()), Vec::<u8>::new());

    let legacy = memory_of(&[0, 0, 0, 0, 0, 0, 0, 3, 1, 2, 3]);
    let before = contents(&legacy);
    let probed = ProbedMemory::probe(legacy.clone());
    assert!(!probed.is_managed());
    assert!(!probed.is_loadable());
    assert!(probed.is_startable());
    let back = probed.into_memory();
    assert!(std::rc::Rc::ptr_eq(&back, &legacy));
    assert_eq!(contents(&legacy), before);

    let managed = DefaultMemoryImpl::default();
    drop(partitions_on(managed.clone()));
    let probed = ProbedMemory::probe(managed);
    assert!(probed.is_managed());
    assert!(probed.is_loadable());
    assert!(probed.is_startable());

    let foreign = ProbedMemory::probe(memory_of(b"MGR\x02"));
    assert!(foreign.is_managed());
    assert!(!foreign.is_loadable());
    assert!(!foreign.is_startable());

    assert_eq!(prefix_read(Ok(vec![1, 2, 3, 4])), vec![1, 2, 3, 4]);
    assert_eq!(prefix_read(Err(MemoryError::OutOfBounds)), Vec::<u8>::new());
}

#[test]
fn a_manager_is_recovered_exactly_where_the_look_found_one() {
    let legacy = memory_of(&[0, 0, 0, 0, 0, 0, 0, 3, 1, 2, 3]);
    match Partitions::try_from_probed(ProbedMemory::probe(legacy.clone())) {
        Ok(_) => panic!("no memory manager was written"),
        Err(unmanaged) => assert!(std::rc::Rc::ptr_eq(&unmanaged, &legacy)),
    }
    assert!(Partitions::try_from_probed(ProbedMemory::probe(memory_of(b"MGR\x02"))).is_err());
    assert!(Partitions::try_from_probed(ProbedMemory::probe(DefaultMemoryImpl::default()))
        .is_err());
    let managed = DefaultMemoryImpl::default();
    drop(partitions_on(managed.clone()));
    assert!(Partitions::try_from_probed(ProbedMemory::probe(managed.clone())).is_ok());

    let restored = State::restore_probed(ProbedMemory::probe(managed));
    assert_eq!(restored.loader, Loader::Nothing);
    assert!(restored.partitions.is_ok());
    let restored = State::restore_probed(ProbedMemory::probe(legacy));
    assert_eq!(restored.loader, Loader::LegacyBlob);
    assert!(restored.partitions.is_err());
}

#[test]
fn a_frame_is_the_length_field_and_the_blob() {
    assert_eq!((FRAME_OFFSET, LENGTH_FIELD_LEN, SCHEMA_MARKER_OFFSET), (0, 8, 0));
    assert_eq!(frame(&[7, 8, 9]), vec![0, 0, 0, 0, 0, 0, 0, 3, 7, 8, 9]);
    assert_eq!(frame(&[]), vec![0; 8]);
    let blob = vec![5u8; 300];
    let framed = frame(&blob);
    assert_eq!(&framed[..8], &[0, 0, 0, 0, 0, 0, 1, 44]);
    assert_eq!(&framed[8..], &blob[..]);
}

#[test]
fn the_blob_is_read_behind_the_field_and_as_long_as_it_says() {
    let memory = memory_of(&[9, 9, 9, 9, 9, 9, 9, 9, 1, 2, 3, 4, 5]);
    assert_eq!(read_behind_raw(&memory, Ok(vec![0, 0, 0, 0, 0, 0, 0, 3])), Ok(vec![1, 2, 3]));
    assert_eq!(read_behind_raw(&memory, Ok(vec![0; 8])), Ok(vec![]));
    assert_eq!(
        read_behind_raw(&memory, Ok(vec![0, 0, 0, 0, 0, 1, 0, 0])),
        Err(StateError::OutOfBounds)
    );
    assert_eq!(read_behind_raw(&memory, Ok(vec![0; 7])), Err(StateError::OutOfBounds));
    assert_eq!(
        read_behind_raw(&memory, Err(MemoryError::OutOfBounds)),
        Err(StateError::OutOfBounds)
    );
    let partitions = partitions_on(DefaultMemoryImpl::default());
    let mut partition = partitions.get(MemoryId::new(4));
    assert_eq!(write_partition(&mut partition, 0, &[9, 9, 9, 9, 9, 9, 9, 9, 1, 2, 3]), Ok(()));
    assert_eq!(read_behind(&partition, Ok(vec![0, 0, 0, 0, 0, 0, 0, 2])), Ok(vec![1, 2]));
    assert_eq!(read_behind(&partition, Ok(vec![255; 8])), Err(StateError::OutOfBounds));
    assert_eq!(
        read_behind(&partition, Err(MemoryError::OutOfBounds)),
        Err(StateError::OutOfBounds)
    );
}
