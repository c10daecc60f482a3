use logos::file_write::{next_allocation, AllocationAction, AllocationEvent, AllocationState, blocks_after_write, blocks_before_write, inline_block, plan_write, write_over_block, WritePlan};
use logos::namespace::{CowExtent, NamespaceError, ObjectId, ObjectKind, ObjectNamespace, BLOCK_BYTES, CREATE_KIND, MAX_FILE_BYTES};

#[test]
fn block_counts_cover_the_file_before_and_after() {
    assert_eq!(blocks_after_write(100, 5000), 2);
    assert_eq!(blocks_after_write(9000, 10), 3);
    assert_eq!(blocks_after_write(0, 4096), 1);
    assert_eq!(blocks_before_write(4097, &[]), 2);
    assert_eq!(blocks_before_write(0, &[CowExtent { start: 9, blocks: 3 }, CowExtent { start: 20, blocks: 2 }]), 5);
}

#[test]
fn written_bytes_land_over_the_old_block() {
    let mut data = [0u8; MAX_FILE_BYTES];
    for (i, byte) in data.iter_mut().enumerate() {
        *byte = (i % 251) as u8 + 1;
    }
    let second = inline_block(&data, 5000, 1);
    assert_eq!(second[0], data[4096]);
    assert_eq!(second[903], data[4999]);
    assert_eq!(second[904], 0);
    let written = write_over_block(&second, 1, 4090, b"abcdefghij");
    assert_eq!(&written[..4], b"ghij");
    assert_eq!(written[4], second[4]);
    let untouched = write_over_block(&second, 1, 0, b"xy");
    assert_eq!(untouched, second);
    assert_eq!(BLOCK_BYTES, written.len());
}

#[test]
fn write_plans_follow_the_file() {
    let mut namespace = ObjectNamespace::new();
    let (file, payload) = namespace.plan_create(ObjectId::root(), ObjectKind::File, b"f").unwrap();
    namespace.apply_record(CREATE_KIND, &payload).unwrap();
    assert_eq!(plan_write(&namespace, file, 0, 0), Err(NamespaceError::TooLarge));
    assert_eq!(plan_write(&namespace, file, 10, 20), Ok(WritePlan::Inline));
    assert_eq!(
        plan_write(&namespace, file, 8190, 10),
        Ok(WritePlan::Extents { new_length: 8200, blocks: 3, old_blocks: 0 })
    );
    assert_eq!(plan_write(&namespace, ObjectId::root(), 0, 1), Err(NamespaceError::IsDirectory));
    assert_eq!(plan_write(&namespace, file, usize::MAX, 2), Err(NamespaceError::TooLarge));
}

#[test]
fn allocation_halves_on_shortage_and_stops_past_the_extent_slots() {
    let start = AllocationState { remaining: 5, extents: 0, requested: 0 };
    let (state, action) = next_allocation(start, AllocationEvent::Start);
    assert_eq!(action, AllocationAction::Allocate(5));
    let (state, action) = next_allocation(state, AllocationEvent::OutOfSpace);
    assert_eq!(action, AllocationAction::Allocate(3));
    let (state, action) = next_allocation(state, AllocationEvent::Allocated(3));
    assert_eq!((state.remaining, state.extents, action), (2, 1, AllocationAction::Allocate(2)));
    let (state, action) = next_allocation(state, AllocationEvent::OutOfSpace);
    assert_eq!(action, AllocationAction::Allocate(1));
    let (state, action) = next_allocation(state, AllocationEvent::OutOfSpace);
    assert_eq!(action, AllocationAction::Stop);
    let (state, action) = next_allocation(state, AllocationEvent::Allocated(1));
    assert_eq!((state.remaining, action), (1, AllocationAction::Allocate(1)));
    let (_, action) = next_allocation(state, AllocationEvent::Allocated(1));
    assert_eq!(action, AllocationAction::Finished);
    let full = AllocationState { remaining: 4, extents: 7, requested: 1 };
    let (_, action) = next_allocation(full, AllocationEvent::Allocated(1));
    assert_eq!(action, AllocationAction::TooLarge);
    let (_, action) = next_allocation(full, AllocationEvent::Failed);
    assert_eq!(action, AllocationAction::Stop);
}
