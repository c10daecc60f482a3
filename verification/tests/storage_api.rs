use logos::namespace::{NamespaceError, ObjectId, ObjectKind, ObjectNamespace, CREATE_KIND};
use logos::namespace_transaction::NamespaceTransaction;
use logos::storage_api::{list_response, map_error, StorageApiStatus, STORAGE_API_RESPONSE_DATA_BYTES};

fn create(namespace: &mut ObjectNamespace, parent: ObjectId, kind: ObjectKind, name: &[u8]) -> ObjectId {
    let (id, payload) = namespace.plan_create(parent, kind, name).unwrap();
    namespace.apply_record(CREATE_KIND, &payload).unwrap();
    id
}

#[test]
fn listing_gives_one_name_per_request_and_says_whether_more_follow() {
    let mut namespace = ObjectNamespace::new();
    let dir = create(&mut namespace, ObjectId::root(), ObjectKind::Directory, b"etc");
    create(&mut namespace, dir, ObjectKind::File, b"a");
    create(&mut namespace, dir, ObjectKind::File, b"bb");
    let first = list_response(&namespace, None, 0, b"/etc", 0);
    assert_eq!(first.status, StorageApiStatus::Success);
    assert_eq!(&first.data[..first.len], b"a");
    assert!(first.more);
    let second = list_response(&namespace, None, 0, b"/etc", 1);
    assert_eq!(&second.data[..second.len], b"bb");
    assert!(!second.more);
    assert!(second.data[second.len..].iter().all(|b| *b == 0));
    let past = list_response(&namespace, None, 0, b"/etc", 2);
    assert_eq!((past.status, past.len, past.more), (StorageApiStatus::Success, 0, false));
    assert_eq!(list_response(&namespace, None, 0, b"/etc/a", 0).status, StorageApiStatus::NotDirectory);
    assert_eq!(list_response(&namespace, None, 0, b"/nope", 0).status, StorageApiStatus::NotFound);
    assert_eq!(list_response(&namespace, None, 0, b"etc", 0).status, StorageApiStatus::Invalid);
    assert_eq!(STORAGE_API_RESPONSE_DATA_BYTES, first.data.len());
}

#[test]
fn listing_under_a_transaction_needs_the_active_one_and_sees_its_changes() {
    let namespace = ObjectNamespace::new();
    let mut transaction = NamespaceTransaction::new();
    transaction.create_file(&namespace, b"/new").unwrap();
    assert_eq!(list_response(&namespace, None, 7, b"/", 0).status, StorageApiStatus::NoTransaction);
    assert_eq!(list_response(&namespace, Some((8, &transaction)), 7, b"/", 0).status, StorageApiStatus::Stale);
    let inside = list_response(&namespace, Some((7, &transaction)), 7, b"/", 0);
    assert_eq!((inside.status, inside.transaction_id), (StorageApiStatus::Success, 7));
    assert_eq!(&inside.data[..inside.len], b"new");
    let outside = list_response(&namespace, Some((7, &transaction)), 0, b"/", 0);
    assert_eq!((outside.status, outside.len), (StorageApiStatus::Success, 0));
}

#[test]
fn namespace_errors_map_to_statuses() {
    assert_eq!(map_error(NamespaceError::GenerationExhausted), StorageApiStatus::Capacity);
    assert_eq!(map_error(NamespaceError::InvalidRecord), StorageApiStatus::Invalid);
    assert_eq!(map_error(NamespaceError::Recovery), StorageApiStatus::Io);
}
