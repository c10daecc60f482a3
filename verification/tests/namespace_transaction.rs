use logos::namespace::{NamespaceError, ObjectId, ObjectKind, ObjectNamespace, CREATE_KIND, MAX_FILE_BYTES, WRITE_KIND};
use logos::namespace_snapshot::{encode_storage_snapshot, restore_snapshot_from_metadata, PACKAGE_SNAPSHOT_BYTES};
use logos::namespace::BLOCK_BYTES;
use logos::namespace_transaction::{NamespaceTransaction, MAX_TRANSACTION_RECORDS};

fn create(namespace: &mut ObjectNamespace, parent: ObjectId, kind: ObjectKind, name: &[u8]) -> ObjectId {
    let (id, payload) = namespace.plan_create(parent, kind, name).unwrap();
    namespace.apply_record(CREATE_KIND, &payload).unwrap();
    id
}

fn write(namespace: &mut ObjectNamespace, id: ObjectId, offset: u32, data: &[u8]) {
    let mut record = vec![0; 12 + data.len()];
    record[0..2].copy_from_slice(&id.slot().to_le_bytes());
    record[2..6].copy_from_slice(&id.generation().to_le_bytes());
    record[6..10].copy_from_slice(&offset.to_le_bytes());
    record[10..12].copy_from_slice(&(data.len() as u16).to_le_bytes());
    record[12..].copy_from_slice(data);
    namespace.apply_record(WRITE_KIND, &record).unwrap();
}

#[test]
fn aborted_transaction_does_not_change_namespace() {
    let base = ObjectNamespace::new();
    let mut transaction = NamespaceTransaction::new();
    transaction.create_file(&base, b"/discarded").unwrap();
    transaction.abort();
    assert_eq!(base.resolve_path(b"/discarded"), Err(NamespaceError::NotFound));
}

#[test]
fn replace_write_capacity_check_does_not_stage_truncate() {
    let mut base = ObjectNamespace::new();
    let file = create(&mut base, ObjectId::root(), ObjectKind::File, b"file");
    write(&mut base, file, 0, b"x");

    let mut transaction = NamespaceTransaction::new();
    for offset in 1..MAX_TRANSACTION_RECORDS {
        transaction.write(&base, b"/file", offset, b"x", false).unwrap();
    }
    assert_eq!(transaction.write(&base, b"/file", 0, b"replacement", true), Err(NamespaceError::Capacity));
    assert_eq!(transaction.record_count(), MAX_TRANSACTION_RECORDS - 1);
    assert_eq!(transaction.stat(&base, b"/file").unwrap().length, MAX_TRANSACTION_RECORDS as u32);
}

#[test]
fn transaction_reads_its_own_writes_and_commits_them() {
    let mut base = ObjectNamespace::new();
    let mut transaction = NamespaceTransaction::new();
    transaction.create_file(&base, b"/proof").unwrap();
    assert_eq!(transaction.write(&base, b"/proof", 0, b"durable", true), Ok(7));
    let mut output = [0; 7];
    assert_eq!(transaction.read(&base, b"/proof", 0, &mut output).unwrap(), 7);
    assert_eq!(&output, b"durable");
    assert_eq!(base.resolve_path(b"/proof"), Err(NamespaceError::NotFound));
    transaction.rename(&base, b"/proof", b"/committed").unwrap();
    assert_eq!(transaction.record_count(), 3);
    let retired = transaction.apply_to(&mut base);
    assert!(retired.is_empty());

    let metadata = encode_storage_snapshot(&base, &[0; PACKAGE_SNAPSHOT_BYTES]).unwrap();
    let (reopened, _) =
        restore_snapshot_from_metadata((metadata.len() / BLOCK_BYTES) as u32, &metadata, (64, 128)).unwrap();
    let id = reopened.resolve_path(b"/committed").unwrap();
    let mut output = [0; 7];
    assert_eq!(reopened.read(id, 0, &mut output).unwrap(), 7);
    assert_eq!(&output, b"durable");
}

#[test]
fn replacing_writes_truncate_first_and_long_writes_take_several_records() {
    let mut base = ObjectNamespace::new();
    let file = create(&mut base, ObjectId::root(), ObjectKind::File, b"file");
    write(&mut base, file, 0, b"old contents");
    let mut transaction = NamespaceTransaction::new();
    assert_eq!(transaction.write(&base, b"/file", 2, b"new", true), Ok(3));
    assert_eq!(transaction.record_count(), 2);
    let mut output = [9; 5];
    assert_eq!(transaction.read(&base, b"/file", 0, &mut output), Ok(5));
    assert_eq!(output, [0, 0, b'n', b'e', b'w']);
    let long = vec![7u8; MAX_FILE_BYTES];
    assert_eq!(transaction.write(&base, b"/file", 0, &long, false), Ok(MAX_FILE_BYTES));
    assert_eq!(transaction.record_count(), 5);
    assert_eq!(transaction.stat(&base, b"/file").unwrap().length, MAX_FILE_BYTES as u32);
    assert_eq!(transaction.write(&base, b"/file", 1, &long, false), Err(NamespaceError::TooLarge));
    assert_eq!(transaction.write(&base, b"/file", 0, b"", false), Err(NamespaceError::TooLarge));
    assert_eq!(transaction.write(&base, b"/", 0, b"x", false), Err(NamespaceError::IsDirectory));
    assert_eq!(transaction.write(&base, b"/missing", 0, b"x", false), Err(NamespaceError::NotFound));
}

#[test]
fn removing_and_renaming_follow_the_journal_rules() {
    let mut base = ObjectNamespace::new();
    let dir = create(&mut base, ObjectId::root(), ObjectKind::Directory, b"dir");
    create(&mut base, dir, ObjectKind::File, b"inner");
    create(&mut base, ObjectId::root(), ObjectKind::File, b"other");
    let mut transaction = NamespaceTransaction::new();
    assert_eq!(transaction.remove(&base, b"/"), Err(NamespaceError::Root));
    assert_eq!(transaction.remove(&base, b"/dir"), Err(NamespaceError::NotEmpty));
    assert_eq!(transaction.rename(&base, b"/", b"/moved"), Err(NamespaceError::Root));
    assert_eq!(transaction.rename(&base, b"/other", b"/dir"), Err(NamespaceError::AlreadyExists));
    assert_eq!(transaction.rename(&base, b"/dir", b"/dir/inner/deeper"), Err(NamespaceError::NotDirectory));
    assert_eq!(transaction.record_count(), 0);
    transaction.remove(&base, b"/dir/inner").unwrap();
    transaction.remove(&base, b"/dir").unwrap();
    assert_eq!(transaction.list(&base, b"/").unwrap().len(), 1);
    assert_eq!(transaction.stat(&base, b"/dir"), Err(NamespaceError::NotFound));
    assert_eq!(base.list(ObjectId::root()).unwrap().len(), 2);
    assert_eq!(transaction.stat_id(&base, dir), Err(NamespaceError::Stale));
}

#[test]
fn transaction_supports_read_your_writes_and_atomic_reopen() {
    let mut namespace = ObjectNamespace::new();
    let mut transaction = NamespaceTransaction::new();
    transaction.create_file(&namespace, b"/proof").unwrap();
    transaction.write(&namespace, b"/proof", 0, b"durable", true).unwrap();
    let mut output = [0; 7];
    assert_eq!(transaction.read(&namespace, b"/proof", 0, &mut output).unwrap(), 7);
    assert_eq!(&output, b"durable");
    transaction.rename(&namespace, b"/proof", b"/committed").unwrap();
    assert_eq!(namespace.resolve_path(b"/committed"), Err(NamespaceError::NotFound));
    transaction.apply_to(&mut namespace);

    let id = namespace.resolve_path(b"/committed").unwrap();
    let mut output = [0; 7];
    assert_eq!(namespace.read(id, 0, &mut output).unwrap(), 7);
    assert_eq!(&output, b"durable");
}
