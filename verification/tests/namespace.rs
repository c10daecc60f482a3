use logos::namespace::{
    NamespaceError, ObjectId, ObjectKind, ObjectNamespace, CREATE_KIND, MAX_COMPONENT_BYTES, RENAME_KIND,
    TRUNCATE_KIND, UNLINK_KIND, WRITE_KIND,
};

fn unlink_record(id: ObjectId) -> [u8; 6] {
    let mut record = [0; 6];
    record[0..2].copy_from_slice(&id.slot().to_le_bytes());
    record[2..6].copy_from_slice(&id.generation().to_le_bytes());
    record
}

fn rename_record(id: ObjectId, parent: ObjectId, name: &[u8]) -> [u8; 2 + 4 + 2 + 4 + 2 + MAX_COMPONENT_BYTES] {
    let mut record = [0; 2 + 4 + 2 + 4 + 2 + MAX_COMPONENT_BYTES];
    record[0..2].copy_from_slice(&id.slot().to_le_bytes());
    record[2..6].copy_from_slice(&id.generation().to_le_bytes());
    record[6..8].copy_from_slice(&parent.slot().to_le_bytes());
    record[8..12].copy_from_slice(&parent.generation().to_le_bytes());
    record[12..14].copy_from_slice(&(name.len() as u16).to_le_bytes());
    record[14..14 + name.len()].copy_from_slice(name);
    record
}

fn write_record(id: ObjectId, offset: u32, data: &[u8]) -> Vec<u8> {
    let mut record = vec![0; 12 + data.len()];
    record[0..2].copy_from_slice(&id.slot().to_le_bytes());
    record[2..6].copy_from_slice(&id.generation().to_le_bytes());
    record[6..10].copy_from_slice(&offset.to_le_bytes());
    record[10..12].copy_from_slice(&(data.len() as u16).to_le_bytes());
    record[12..].copy_from_slice(data);
    record
}

fn create(namespace: &mut ObjectNamespace, parent: ObjectId, kind: ObjectKind, name: &[u8]) -> ObjectId {
    let (id, payload) = namespace.plan_create(parent, kind, name).unwrap();
    namespace.apply_record(CREATE_KIND, &payload).unwrap();
    id
}

#[test]
fn object_lifecycle_is_bounded_and_generation_safe() {
    let mut namespace = ObjectNamespace::new();
    let (id, payload) = namespace.plan_create(ObjectId::root(), ObjectKind::File, b"one").unwrap();
    namespace.apply_record(CREATE_KIND, &payload).unwrap();
    assert_eq!(namespace.resolve_path(b"/one").unwrap(), id);
    assert_eq!(namespace.list(ObjectId::root()).unwrap().len(), 1);
    let stale = id;
    let unlink = unlink_record(id);
    namespace.apply_record(UNLINK_KIND, &unlink).unwrap();
    assert_eq!(namespace.stat(stale), Err(NamespaceError::Stale));
}

#[test]
fn path_depth_and_component_bounds_are_rejected() {
    let namespace = ObjectNamespace::new();
    assert_eq!(namespace.resolve_path(b"relative"), Err(NamespaceError::InvalidPath));
    assert_eq!(namespace.resolve_path(&[b'/'; MAX_COMPONENT_BYTES + 2]), Err(NamespaceError::InvalidPath));
}

#[test]
fn replay_rejects_directory_cycles() {
    let mut namespace = ObjectNamespace::new();
    let (parent, create_parent) = namespace.plan_create(ObjectId::root(), ObjectKind::Directory, b"parent").unwrap();
    namespace.apply_record(CREATE_KIND, &create_parent).unwrap();
    let (child, create_child) = namespace.plan_create(parent, ObjectKind::Directory, b"child").unwrap();
    namespace.apply_record(CREATE_KIND, &create_child).unwrap();
    let rename = rename_record(parent, child, b"moved");
    assert_eq!(namespace.apply_record(RENAME_KIND, &rename), Err(NamespaceError::InvalidPath));
}

#[test]
fn slots_are_reused_under_a_newer_generation() {
    let mut namespace = ObjectNamespace::new();
    let first = create(&mut namespace, ObjectId::root(), ObjectKind::File, b"first");
    namespace.apply_record(UNLINK_KIND, &unlink_record(first)).unwrap();
    let second = create(&mut namespace, ObjectId::root(), ObjectKind::File, b"second");
    assert_eq!(second.slot(), first.slot());
    assert_eq!(second.generation(), first.generation() + 1);
    assert_eq!(namespace.stat(first), Err(NamespaceError::Stale));
    assert_eq!(namespace.apply_record(UNLINK_KIND, &unlink_record(first)), Err(NamespaceError::Stale));
}

#[test]
fn table_capacity_names_and_kinds_are_checked() {
    let mut namespace = ObjectNamespace::new();
    let root = ObjectId::root();
    let file = create(&mut namespace, root, ObjectKind::File, b"a");
    assert_eq!(namespace.plan_create(root, ObjectKind::File, b"a").unwrap_err(), NamespaceError::AlreadyExists);
    assert_eq!(namespace.plan_create(root, ObjectKind::File, b"a/b").unwrap_err(), NamespaceError::InvalidName);
    assert_eq!(namespace.plan_create(root, ObjectKind::File, b"").unwrap_err(), NamespaceError::InvalidName);
    assert_eq!(namespace.plan_create(file, ObjectKind::File, b"x").unwrap_err(), NamespaceError::NotDirectory);
    create(&mut namespace, root, ObjectKind::File, b"b");
    create(&mut namespace, root, ObjectKind::Directory, b"c");
    assert_eq!(namespace.plan_create(root, ObjectKind::File, b"d").unwrap_err(), NamespaceError::Capacity);
    let list = namespace.list(root).unwrap();
    assert_eq!(list.len(), 3);
    assert_eq!(list.get(0), Some(file));
    assert_eq!(list.get(3), None);
    assert_eq!(namespace.list(file).unwrap_err(), NamespaceError::NotDirectory);
}

#[test]
fn writes_truncates_and_reads_are_bounded() {
    let mut namespace = ObjectNamespace::new();
    let file = create(&mut namespace, ObjectId::root(), ObjectKind::File, b"data");
    namespace.apply_record(WRITE_KIND, &write_record(file, 2, b"hello")).unwrap();
    let mut output = [0xffu8; 10];
    assert_eq!(namespace.read(file, 0, &mut output), Ok(7));
    assert_eq!(&output[..7], &[0, 0, b'h', b'e', b'l', b'l', b'o']);
    assert_eq!(output[7], 0xff);
    assert_eq!(namespace.read(file, 8, &mut output), Err(NamespaceError::TooLarge));
    assert_eq!(namespace.stat(file).unwrap().length, 7);
    assert_eq!(
        namespace.apply_record(WRITE_KIND, &write_record(file, 8190, b"xyz")),
        Err(NamespaceError::InvalidRecord)
    );
    let mut truncate = [0u8; 10];
    truncate[0..2].copy_from_slice(&file.slot().to_le_bytes());
    truncate[2..6].copy_from_slice(&file.generation().to_le_bytes());
    truncate[6..10].copy_from_slice(&3u32.to_le_bytes());
    namespace.apply_record(TRUNCATE_KIND, &truncate).unwrap();
    let mut small = [0u8; 2];
    assert_eq!(namespace.read(file, 1, &mut small), Ok(2));
    assert_eq!(small, [0, b'h']);
    assert_eq!(namespace.read(ObjectId::root(), 0, &mut small), Err(NamespaceError::IsDirectory));
    assert_eq!(namespace.apply_record(9, &truncate), Err(NamespaceError::InvalidRecord));
}

#[test]
fn rename_moves_and_unlink_keeps_directories_whole() {
    let mut namespace = ObjectNamespace::new();
    let root = ObjectId::root();
    let dir = create(&mut namespace, root, ObjectKind::Directory, b"dir");
    let file = create(&mut namespace, dir, ObjectKind::File, b"file");
    assert_eq!(namespace.resolve_path(b"/dir/file"), Ok(file));
    assert_eq!(namespace.resolve_path(b"/dir/missing"), Err(NamespaceError::NotFound));
    assert_eq!(namespace.resolve_path(b"/dir//file"), Err(NamespaceError::InvalidPath));
    assert_eq!(namespace.resolve_path(b"/"), Ok(root));
    assert_eq!(namespace.apply_record(UNLINK_KIND, &unlink_record(dir)), Err(NamespaceError::NotEmpty));
    assert_eq!(namespace.apply_record(UNLINK_KIND, &unlink_record(root)), Err(NamespaceError::Root));
    namespace.apply_record(RENAME_KIND, &rename_record(file, root, b"moved")).unwrap();
    assert_eq!(namespace.resolve_path(b"/moved"), Ok(file));
    assert_eq!(namespace.resolve_path(b"/dir/file"), Err(NamespaceError::NotFound));
    let info = namespace.stat(file).unwrap();
    assert_eq!(info.parent, root);
    assert_eq!(info.name_bytes(), b"moved".to_vec());
    namespace.apply_record(UNLINK_KIND, &unlink_record(dir)).unwrap();
    assert_eq!(namespace.apply_record(RENAME_KIND, &rename_record(root, root, b"x")), Err(NamespaceError::Root));
}
