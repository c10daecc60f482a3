use logos::namespace::{NamespaceError, ObjectId, ObjectKind, ObjectNamespace, BLOCK_BYTES, CREATE_KIND, WRITE_KIND};
use logos::namespace_snapshot::{
    encode_storage_snapshot, pack_snapshot, read_snapshot_record, restore_snapshot_from_metadata,
    restore_snapshot_from_store, snapshot_source, PACKAGE_SNAPSHOT_BYTES, SNAPSHOT_BYTES, SNAPSHOT_RECORD_BYTES,
    STORAGE_SNAPSHOT_BYTES,
};
use logos::package_catalog::{PackageCatalog, PackageCatalogError, PackageExtent, PackageRecord, ServiceId};

const ARENA: (u64, u64) = (100, 200);

fn create(namespace: &mut ObjectNamespace, parent: ObjectId, kind: ObjectKind, name: &[u8]) -> ObjectId {
    let (id, payload) = namespace.plan_create(parent, kind, name).unwrap();
    namespace.apply_record(CREATE_KIND, &payload).unwrap();
    id
}

fn write(namespace: &mut ObjectNamespace, id: ObjectId, data: &[u8]) {
    let mut record = vec![0; 12 + data.len()];
    record[0..2].copy_from_slice(&id.slot().to_le_bytes());
    record[2..6].copy_from_slice(&id.generation().to_le_bytes());
    record[10..12].copy_from_slice(&(data.len() as u16).to_le_bytes());
    record[12..].copy_from_slice(data);
    namespace.apply_record(WRITE_KIND, &record).unwrap();
}

fn packages() -> Vec<u8> {
    let mut bytes = vec![0; PACKAGE_SNAPSHOT_BYTES];
    bytes[0] = 2;
    bytes[1] = 16;
    bytes[100] = 7;
    bytes
}

fn blocks(metadata: &[u8]) -> u32 {
    (metadata.len() / BLOCK_BYTES) as u32
}

fn pad(mut packed: Vec<u8>) -> Vec<u8> {
    let length = packed.len().div_ceil(BLOCK_BYTES) * BLOCK_BYTES;
    packed.resize(length, 0);
    packed
}

#[test]
fn snapshot_restores_table_and_packages() {
    let mut namespace = ObjectNamespace::new();
    let dir = create(&mut namespace, ObjectId::root(), ObjectKind::Directory, b"dir");
    let file = create(&mut namespace, dir, ObjectKind::File, b"file");
    write(&mut namespace, file, b"durable bytes");
    let metadata = encode_storage_snapshot(&namespace, &packages()).unwrap();
    assert_eq!(metadata.len() % BLOCK_BYTES, 0);
    assert_eq!(&metadata[0..4], &(STORAGE_SNAPSHOT_BYTES as u32).to_le_bytes());
    let (restored, package_snapshot) = restore_snapshot_from_metadata(blocks(&metadata), &metadata, ARENA).unwrap();
    assert_eq!(package_snapshot, Some(packages()));
    assert_eq!(restored.resolve_path(b"/dir/file"), Ok(file));
    let mut buffer = [0u8; 32];
    let read = restored.read(file, 0, &mut buffer).unwrap();
    assert_eq!(&buffer[..read], b"durable bytes");
    assert_eq!(restored.stat(dir).unwrap().kind, ObjectKind::Directory);
}

#[test]
fn snapshot_source_lays_out_every_slot_then_packages() {
    let namespace = ObjectNamespace::new();
    let raw = snapshot_source(&namespace, &packages());
    assert_eq!(raw.len(), STORAGE_SNAPSHOT_BYTES);
    assert_eq!(&raw[0..4], &1u32.to_le_bytes());
    assert_eq!(raw[10], 2);
    assert_eq!(raw[11], 1);
    assert_eq!(raw[SNAPSHOT_RECORD_BYTES + 11], 0);
    assert_eq!(&raw[SNAPSHOT_BYTES..], &packages()[..]);
}

#[test]
fn packing_writes_runs_behind_a_header() {
    let mut raw = vec![0u8; STORAGE_SNAPSHOT_BYTES];
    raw[300] = 9;
    raw[301] = 8;
    let packed = pack_snapshot(&raw);
    assert_eq!(&packed[0..4], &(STORAGE_SNAPSHOT_BYTES as u32).to_le_bytes());
    assert_eq!(&packed[4..8], &(packed.len() as u32).to_le_bytes());
    assert_eq!(&packed[8..11], &[0, 0, 1]);
    assert_eq!(&packed[11..14], &[0, 44, 0]);
    assert_eq!(&packed[14..19], &[1, 2, 0, 9, 8]);
    assert_eq!(
        restore_snapshot_from_metadata(1, &pad(packed), ARENA).err(),
        Some(NamespaceError::InvalidRecord)
    );
}

#[test]
fn nothing_stored_gives_a_fresh_table() {
    let (namespace, packages) = restore_snapshot_from_metadata(0, &[], ARENA).unwrap();
    assert!(packages.is_none());
    assert_eq!(namespace.list(ObjectId::root()).unwrap().len(), 0);
    let (namespace, packages) = restore_snapshot_from_metadata(1, &[0; BLOCK_BYTES], ARENA).unwrap();
    assert!(packages.is_none());
    assert_eq!(namespace.list(ObjectId::root()).unwrap().len(), 0);
}

#[test]
fn too_many_blocks_need_recovery() {
    assert_eq!(restore_snapshot_from_metadata(11, &[], ARENA).err(), Some(NamespaceError::Recovery));
}

#[test]
fn damaged_headers_and_streams_are_invalid() {
    let namespace = ObjectNamespace::new();
    let metadata = encode_storage_snapshot(&namespace, &packages()).unwrap();
    let mut wrong_length = metadata.clone();
    wrong_length[0] ^= 1;
    assert_eq!(
        restore_snapshot_from_metadata(blocks(&wrong_length), &wrong_length, ARENA).err(),
        Some(NamespaceError::InvalidRecord)
    );
    let mut short = metadata.clone();
    let encoded = u32::from_le_bytes(short[4..8].try_into().unwrap());
    short[4..8].copy_from_slice(&(encoded - 1).to_le_bytes());
    assert_eq!(restore_snapshot_from_metadata(blocks(&short), &short, ARENA).err(), Some(NamespaceError::InvalidRecord));
    let mut past_blocks = metadata.clone();
    past_blocks[4..8].copy_from_slice(&(metadata.len() as u32 + 1).to_le_bytes());
    assert_eq!(
        restore_snapshot_from_metadata(blocks(&past_blocks), &past_blocks, ARENA).err(),
        Some(NamespaceError::InvalidRecord)
    );
}

#[test]
fn bad_links_are_reported_as_the_first_check_says() {
    let namespace = ObjectNamespace::new();
    let mut raw = snapshot_source(&namespace, &packages());
    let slot = SNAPSHOT_RECORD_BYTES;
    raw[slot + 11] = 1;
    let restore = |raw: &Vec<u8>| restore_snapshot_from_metadata(
        blocks(&pad(pack_snapshot(raw))),
        &pad(pack_snapshot(raw)),
        ARENA,
    ).err();
    assert_eq!(restore(&raw), Some(NamespaceError::InvalidName));
    raw[slot + 12] = 1;
    raw[slot + 14] = b'a';
    assert_eq!(restore(&raw), Some(NamespaceError::Stale));
    raw[slot + 4..slot + 6].copy_from_slice(&0u16.to_le_bytes());
    raw[slot + 6..slot + 10].copy_from_slice(&1u32.to_le_bytes());
    raw[slot..slot + 4].copy_from_slice(&3u32.to_le_bytes());
    let (restored, _) = restore_snapshot_from_metadata(
        blocks(&pad(pack_snapshot(&raw))),
        &pad(pack_snapshot(&raw)),
        ARENA,
    ).unwrap();
    assert_eq!(restored.resolve_path(b"/a").unwrap().generation(), 3);
    raw[10] = 1;
    assert_eq!(restore(&raw), Some(NamespaceError::InvalidRecord));
}

#[test]
fn records_are_checked_as_they_are_read() {
    let namespace = ObjectNamespace::new();
    let raw = snapshot_source(&namespace, &packages());
    let root = &raw[..SNAPSHOT_RECORD_BYTES];
    let record = read_snapshot_record(root, ObjectKind::Directory).unwrap();
    assert!(record.alive);
    assert_eq!(record.generation, 1);
    let mut bad_kind = root.to_vec();
    bad_kind[10] = 3;
    assert_eq!(read_snapshot_record(&bad_kind, ObjectKind::Directory).err(), Some(NamespaceError::InvalidRecord));
    let mut extent = root.to_vec();
    extent[273] = 1;
    extent[274..282].copy_from_slice(&120u64.to_le_bytes());
    extent[282..286].copy_from_slice(&1u32.to_le_bytes());
    assert_eq!(read_snapshot_record(&extent, ObjectKind::Directory).err(), Some(NamespaceError::InvalidRecord));
    assert!(read_snapshot_record(&extent, ObjectKind::File).is_ok());
    extent[282..286].copy_from_slice(&0u32.to_le_bytes());
    assert_eq!(read_snapshot_record(&extent, ObjectKind::File).err(), Some(NamespaceError::InvalidRecord));
}

#[test]
fn snapshots_that_do_not_pack_small_enough_are_too_large() {
    let mut namespace = ObjectNamespace::new();
    let alternating: Vec<u8> = (0..8192).map(|i| (i % 2) as u8).collect();
    for name in [&b"one"[..], b"two"] {
        let file = create(&mut namespace, ObjectId::root(), ObjectKind::File, name);
        write(&mut namespace, file, &alternating);
    }
    assert_eq!(encode_storage_snapshot(&namespace, &packages()).err(), Some(NamespaceError::TooLarge));
}

fn table_with_file_extent(start: u64) -> Vec<u8> {
    let namespace = ObjectNamespace::new();
    let mut raw = snapshot_source(&namespace, &[0; PACKAGE_SNAPSHOT_BYTES]);
    let slot = SNAPSHOT_RECORD_BYTES;
    raw[slot..slot + 4].copy_from_slice(&3u32.to_le_bytes());
    raw[slot + 4..slot + 6].copy_from_slice(&0u16.to_le_bytes());
    raw[slot + 6..slot + 10].copy_from_slice(&1u32.to_le_bytes());
    raw[slot + 10] = 1;
    raw[slot + 11] = 1;
    raw[slot + 12..slot + 14].copy_from_slice(&1u16.to_le_bytes());
    raw[slot + 14] = b'a';
    raw[slot + 269..slot + 273].copy_from_slice(&10u32.to_le_bytes());
    raw[slot + 273] = 1;
    raw[slot + 274..slot + 282].copy_from_slice(&start.to_le_bytes());
    raw[slot + 282..slot + 286].copy_from_slice(&1u32.to_le_bytes());
    raw
}

fn with_package_at(mut raw: Vec<u8>, start: u64) -> Vec<u8> {
    let mut records = [PackageRecord::empty(); 16];
    records[0].alive = true;
    records[0].service = ServiceId::Flow;
    records[0].generation = 1;
    records[0].bytes = 100;
    records[0].extent_count = 1;
    records[0].extents[0] = PackageExtent { start, blocks: 1 };
    PackageCatalog::from_records(records).encode_snapshot(&mut raw[SNAPSHOT_BYTES..]).unwrap();
    raw
}

#[test]
fn store_restore_checks_files_against_packages() {
    let raw = with_package_at(table_with_file_extent(120), 121);
    let metadata = pad(pack_snapshot(&raw));
    let (namespace, catalog) =
        restore_snapshot_from_store(blocks(&metadata), &metadata, (100, 200), Some((100, 200))).unwrap();
    assert_eq!(namespace.resolve_path(b"/a").unwrap().generation(), 3);
    assert_eq!(catalog.lookup(ServiceId::Flow).unwrap().extents[0].start, 121);

    let raw = with_package_at(table_with_file_extent(120), 120);
    let metadata = pad(pack_snapshot(&raw));
    assert_eq!(
        restore_snapshot_from_store(blocks(&metadata), &metadata, (100, 200), Some((100, 200))).err(),
        Some(NamespaceError::InvalidRecord)
    );
    assert_eq!(
        restore_snapshot_from_store(blocks(&metadata), &metadata, (100, 200), None).err(),
        Some(NamespaceError::Package(PackageCatalogError::Unsupported))
    );
    let raw = table_with_file_extent(250);
    let metadata = pad(pack_snapshot(&raw));
    assert_eq!(
        restore_snapshot_from_store(blocks(&metadata), &metadata, (100, 200), None).err(),
        Some(NamespaceError::InvalidRecord)
    );
    let (_, catalog) = restore_snapshot_from_store(0, &[], (100, 200), None).unwrap();
    assert!(catalog.lookup(ServiceId::Flow).is_none());
}
