use logos::namespace::BLOCK_BYTES;
use logos::namespace_snapshot::PACKAGE_SNAPSHOT_BYTES;
use logos::package_catalog::{
    decode_record, encode_record, validate_record_layout, PackageCatalog, PackageCatalogError, PackageExtent,
    PackageHandle, PackageRecord, ServiceId, MAX_PACKAGE_RECORDS, PACKAGE_HEADER_BYTES, PACKAGE_INSTALL_KIND,
    PACKAGE_RECORD_BYTES,
};

fn record(start: u64, blocks: u32, bytes: u32) -> PackageRecord {
    let mut record = PackageRecord::empty();
    record.alive = true;
    record.service = ServiceId::Input;
    record.generation = 1;
    record.bytes = bytes;
    record.extent_count = 1;
    record.extents[0] = PackageExtent { start, blocks };
    record
}

fn empty_records() -> [PackageRecord; MAX_PACKAGE_RECORDS] {
    [PackageRecord::empty(); MAX_PACKAGE_RECORDS]
}

#[test]
fn restore_rejects_invalid_package_geometry() {
    let mut snapshot = [0; PACKAGE_SNAPSHOT_BYTES];
    let mut records = empty_records();
    records[0] = record(9, 1, PACKAGE_HEADER_BYTES as u32);
    let catalog = PackageCatalog::from_records(records);
    catalog.encode_snapshot(&mut snapshot).unwrap();
    assert_eq!(
        PackageCatalog::new().restore_snapshot(&snapshot, Some((10, 20))),
        Err(PackageCatalogError::InvalidRecord)
    );

    records[0] = record(10, 2, PACKAGE_HEADER_BYTES as u32);
    let catalog = PackageCatalog::from_records(records);
    catalog.encode_snapshot(&mut snapshot).unwrap();
    assert_eq!(
        PackageCatalog::new().restore_snapshot(&snapshot, Some((10, 20))),
        Err(PackageCatalogError::InvalidRecord)
    );
}

#[test]
fn restore_and_replay_reject_overlapping_or_overflowing_extents() {
    let mut snapshot = [0; PACKAGE_SNAPSHOT_BYTES];
    let mut records = empty_records();
    records[0] = record(10, 1, PACKAGE_HEADER_BYTES as u32);
    records[1] = record(10, 1, PACKAGE_HEADER_BYTES as u32);
    let catalog = PackageCatalog::from_records(records);
    catalog.encode_snapshot(&mut snapshot).unwrap();
    assert_eq!(
        PackageCatalog::new().restore_snapshot(&snapshot, Some((10, 20))),
        Err(PackageCatalogError::InvalidRecord)
    );

    let overflowing = record(u64::MAX, 1, PACKAGE_HEADER_BYTES as u32);
    let mut payload = [0; PACKAGE_RECORD_BYTES];
    encode_record(&overflowing, &mut payload);
    assert_eq!(
        PackageCatalog::new().apply_record(PACKAGE_INSTALL_KIND, &payload, Some((10, 20))),
        Err(PackageCatalogError::InvalidRecord)
    );
}

#[test]
fn snapshot_round_trips_and_needs_an_arena_for_live_packages() {
    let mut records = empty_records();
    records[0] = record(10, 1, PACKAGE_HEADER_BYTES as u32);
    let mut other = record(11, 2, (BLOCK_BYTES + 1) as u32);
    other.service = ServiceId::Flow;
    other.generation = 7;
    other.crc32c = 0xdead_beef;
    records[3] = other;
    let catalog = PackageCatalog::from_records(records);
    let mut snapshot = [0xff; PACKAGE_SNAPSHOT_BYTES + 3];
    assert_eq!(catalog.encode_snapshot(&mut snapshot), Ok(PACKAGE_SNAPSHOT_BYTES));
    assert_eq!(&snapshot[PACKAGE_SNAPSHOT_BYTES..], &[0xff; 3]);
    assert_eq!(&snapshot[0..2], &[2, 16]);
    let mut restored = PackageCatalog::new();
    restored.restore_snapshot(&snapshot[..PACKAGE_SNAPSHOT_BYTES], Some((10, 20))).unwrap();
    let flow = restored.lookup(ServiceId::Flow).unwrap();
    assert_eq!(flow.handle, PackageHandle { service: ServiceId::Flow, generation: 7 });
    assert_eq!(flow.crc32c, 0xdead_beef);
    assert_eq!(restored.service_at(1), Some(ServiceId::Flow));
    assert_eq!(restored.service_at(2), None);
    assert_eq!(
        PackageCatalog::new().restore_snapshot(&snapshot[..PACKAGE_SNAPSHOT_BYTES], None),
        Err(PackageCatalogError::Unsupported)
    );
    let mut short = [0u8; 10];
    assert_eq!(catalog.encode_snapshot(&mut short), Err(PackageCatalogError::InvalidRequest));
    let mut wrong_format = snapshot;
    wrong_format[0] = 3;
    assert_eq!(
        PackageCatalog::new().restore_snapshot(&wrong_format[..PACKAGE_SNAPSHOT_BYTES], Some((10, 20))),
        Err(PackageCatalogError::InvalidRecord)
    );
}

#[test]
fn legacy_snapshots_hold_eight_records() {
    let mut snapshot = [0u8; PACKAGE_SNAPSHOT_BYTES];
    snapshot[0] = 1;
    snapshot[1] = 8;
    let mut live = record(12, 1, PACKAGE_HEADER_BYTES as u32);
    live.service = ServiceId::Storage;
    for index in 0..8 {
        let mut slot = [0u8; PACKAGE_RECORD_BYTES];
        encode_record(&PackageRecord::empty(), &mut slot);
        snapshot[2 + index * PACKAGE_RECORD_BYTES..2 + (index + 1) * PACKAGE_RECORD_BYTES].copy_from_slice(&slot);
    }
    let mut slot = [0u8; PACKAGE_RECORD_BYTES];
    encode_record(&live, &mut slot);
    snapshot[2 + 7 * PACKAGE_RECORD_BYTES..2 + 8 * PACKAGE_RECORD_BYTES].copy_from_slice(&slot);
    snapshot[2 + 9 * PACKAGE_RECORD_BYTES] = 0x55;
    let mut catalog = PackageCatalog::new();
    catalog.restore_snapshot(&snapshot, Some((10, 20))).unwrap();
    assert_eq!(catalog.lookup(ServiceId::Storage).unwrap().extents[0], PackageExtent { start: 12, blocks: 1 });
}

#[test]
fn install_records_replace_their_service_or_take_a_free_slot() {
    let mut catalog = PackageCatalog::new();
    let mut payload = [0u8; PACKAGE_RECORD_BYTES];
    encode_record(&record(10, 1, PACKAGE_HEADER_BYTES as u32), &mut payload);
    catalog.apply_record(PACKAGE_INSTALL_KIND, &payload, Some((10, 20))).unwrap();
    assert_eq!(catalog.next_generation(ServiceId::Input), Ok(2));
    assert_eq!(catalog.next_generation(ServiceId::Flow), Ok(1));
    let mut replacement = record(11, 1, PACKAGE_HEADER_BYTES as u32);
    replacement.generation = 2;
    encode_record(&replacement, &mut payload);
    catalog.apply_record(PACKAGE_INSTALL_KIND, &payload, Some((10, 20))).unwrap();
    let info = catalog.lookup(ServiceId::Input).unwrap();
    assert_eq!(info.handle.generation, 2);
    assert_eq!(info.extents[0].start, 11);
    assert_eq!(catalog.used_extents(), vec![PackageExtent { start: 11, blocks: 1 }]);
    assert!(catalog.block_used(11));
    assert!(!catalog.block_used(10));
    assert_eq!(
        catalog.validate_handle(PackageHandle { service: ServiceId::Input, generation: 1 }).err(),
        Some(PackageCatalogError::Stale)
    );
    assert!(catalog.validate_handle(PackageHandle { service: ServiceId::Input, generation: 2 }).is_ok());
    assert_eq!(catalog.apply_record(PACKAGE_INSTALL_KIND, &payload, None), Err(PackageCatalogError::Unsupported));
    assert_eq!(catalog.apply_record(7, &payload, Some((10, 20))), Err(PackageCatalogError::InvalidRecord));
    assert_eq!(catalog.apply_record(PACKAGE_INSTALL_KIND, &payload[..10], Some((10, 20))), Err(PackageCatalogError::InvalidRecord));
}

#[test]
fn records_decode_only_when_consistent() {
    let mut bytes = [0u8; PACKAGE_RECORD_BYTES];
    encode_record(&record(10, 1, PACKAGE_HEADER_BYTES as u32), &mut bytes);
    assert_eq!(bytes[1], 1);
    let decoded = decode_record(&bytes).unwrap();
    assert_eq!(decoded.extents[0], PackageExtent { start: 10, blocks: 1 });
    let mut unknown_service = bytes;
    unknown_service[1] = 9;
    assert_eq!(decode_record(&unknown_service).err(), Some(PackageCatalogError::InvalidRecord));
    let mut stray_extent = bytes;
    stray_extent[24 + 16 + 8] = 1;
    assert_eq!(decode_record(&stray_extent).err(), Some(PackageCatalogError::InvalidRecord));
    let mut too_small = bytes;
    too_small[12..16].copy_from_slice(&1u32.to_le_bytes());
    assert_eq!(decode_record(&too_small).err(), Some(PackageCatalogError::InvalidRecord));
    assert_eq!(decode_record(&bytes[..100]).err(), Some(PackageCatalogError::InvalidRecord));
}

#[test]
fn layout_checks_arena_overlap_and_length() {
    let records = empty_records();
    let live = record(10, 1, PACKAGE_HEADER_BYTES as u32);
    assert_eq!(validate_record_layout(&live, (10, 20), &records, None), Ok(()));
    assert_eq!(validate_record_layout(&live, (20, 10), &records, None), Err(PackageCatalogError::InvalidRecord));
    let mut others = empty_records();
    others[2] = record(10, 1, PACKAGE_HEADER_BYTES as u32);
    assert_eq!(validate_record_layout(&live, (10, 20), &others, None), Err(PackageCatalogError::InvalidRecord));
    assert_eq!(validate_record_layout(&live, (10, 20), &others, Some(2)), Ok(()));
}

#[test]
fn installs_are_planned_first_fit_around_used_blocks() {
    let mut records = empty_records();
    records[0] = record(11, 1, PACKAGE_HEADER_BYTES as u32);
    let catalog = PackageCatalog::from_records(records);
    let mut install = catalog.plan_install((10, 20), ServiceId::Flow, 3 * BLOCK_BYTES).unwrap();
    assert_eq!(install.service(), ServiceId::Flow);
    assert_eq!(install.bytes(), 3 * BLOCK_BYTES);
    assert_eq!(install.logical_block(0), Some(10));
    assert_eq!(install.logical_block(1), Some(12));
    assert_eq!(install.logical_block(2), Some(13));
    assert_eq!(install.logical_block(3), None);
    assert!(install.write_offset_valid(BLOCK_BYTES, BLOCK_BYTES));
    assert!(!install.write_offset_valid(1, 10));
    assert!(!install.write_offset_valid(2 * BLOCK_BYTES, BLOCK_BYTES + 1));
    assert!(!install.complete());
    for block in 0..3 {
        install.mark_written(block * BLOCK_BYTES);
    }
    assert!(install.complete());
    assert_eq!(catalog.plan_install((10, 20), ServiceId::Flow, 1).err(), Some(PackageCatalogError::TooLarge));
    assert_eq!(
        catalog.plan_install((10, 13), ServiceId::Flow, 3 * BLOCK_BYTES).err(),
        Some(PackageCatalogError::NoSpace)
    );
    assert_eq!(records[0].logical_block(0), Some(11));
    assert_eq!(records[0].logical_block(1), None);
}
