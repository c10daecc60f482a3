//! The answers of the storage service's request interface: the status each
//! namespace error is reported as, and the listing of a directory one entry
//! per request.

use vstd::prelude::*;
use crate::namespace::{
    NamespaceError, ObjectId, ObjectKind, ObjectNamespace, ObjectRecord, children_from, live_id, record_name,
    resolve_path_out,
};
use crate::namespace_transaction::NamespaceTransaction;
use crate::package_catalog::PackageCatalogError;

verus! {

/// Bytes of data one answer carries.
pub const STORAGE_API_RESPONSE_DATA_BYTES: usize = 192;

/// How a request went.
#[derive(Clone, Copy, Debug, PartialEq, Eq, Structural)]
pub enum StorageApiStatus {
    Success,
    Invalid,
    NotFound,
    NotDirectory,
    AlreadyExists,
    IsDirectory,
    Root,
    NotEmpty,
    Stale,
    TooLarge,
    Capacity,
    Io,
    Unsupported,
    NoTransaction,
}

/// The status a namespace error is reported as.
pub open spec fn status_of_error(error: NamespaceError) -> StorageApiStatus {
    match error {
        NamespaceError::Capacity | NamespaceError::GenerationExhausted => StorageApiStatus::Capacity,
        NamespaceError::InvalidName | NamespaceError::InvalidPath | NamespaceError::InvalidRecord => StorageApiStatus::Invalid,
        NamespaceError::NotFound => StorageApiStatus::NotFound,
        NamespaceError::NotDirectory => StorageApiStatus::NotDirectory,
        NamespaceError::AlreadyExists => StorageApiStatus::AlreadyExists,
        NamespaceError::IsDirectory => StorageApiStatus::IsDirectory,
        NamespaceError::Root => StorageApiStatus::Root,
        NamespaceError::NotEmpty => StorageApiStatus::NotEmpty,
        NamespaceError::Stale => StorageApiStatus::Stale,
        NamespaceError::TooLarge => StorageApiStatus::TooLarge,
        NamespaceError::Recovery => StorageApiStatus::Io,
        NamespaceError::Unsupported => StorageApiStatus::Unsupported,
        NamespaceError::Package(p) => match p {
            PackageCatalogError::VersionConflict | PackageCatalogError::MissingDependency
            | PackageCatalogError::DependencyConflict => StorageApiStatus::Invalid,
            _ => StorageApiStatus::Io,
        },
    }
}

pub fn map_error(error: NamespaceError) -> (r: StorageApiStatus)
    ensures
        r == status_of_error(error),
{
    match error {
        NamespaceError::Capacity | NamespaceError::GenerationExhausted => StorageApiStatus::Capacity,
        NamespaceError::InvalidName | NamespaceError::InvalidPath | NamespaceError::InvalidRecord => StorageApiStatus::Invalid,
        NamespaceError::NotFound => StorageApiStatus::NotFound,
        NamespaceError::NotDirectory => StorageApiStatus::NotDirectory,
        NamespaceError::AlreadyExists => StorageApiStatus::AlreadyExists,
        NamespaceError::IsDirectory => StorageApiStatus::IsDirectory,
        NamespaceError::Root => StorageApiStatus::Root,
        NamespaceError::NotEmpty => StorageApiStatus::NotEmpty,
        NamespaceError::Stale => StorageApiStatus::Stale,
        NamespaceError::TooLarge => StorageApiStatus::TooLarge,
        NamespaceError::Recovery => StorageApiStatus::Io,
        NamespaceError::Unsupported => StorageApiStatus::Unsupported,
        NamespaceError::Package(p) => match p {
            PackageCatalogError::VersionConflict | PackageCatalogError::MissingDependency
            | PackageCatalogError::DependencyConflict => StorageApiStatus::Invalid,
            _ => StorageApiStatus::Io,
        },
    }
}

/// One answer: its status, the transaction it is under, and its data.
#[derive(Clone, Copy)]
pub struct ResponsePayload {
    pub status: StorageApiStatus,
    pub transaction_id: u64,
    pub data: [u8; STORAGE_API_RESPONSE_DATA_BYTES],
    pub len: usize,
    pub more: bool,
}

/// An answer as values.
pub struct PayloadView {
    pub status: StorageApiStatus,
    pub transaction_id: u64,
    pub data: Seq<u8>,
    pub len: usize,
    pub more: bool,
}

pub open spec fn payload_view(p: ResponsePayload) -> PayloadView {
    PayloadView { status: p.status, transaction_id: p.transaction_id, data: p.data@, len: p.len, more: p.more }
}

/// An answer with no data.
pub open spec fn empty_payload(status: StorageApiStatus, transaction_id: u64) -> PayloadView {
    PayloadView {
        status,
        transaction_id,
        data: Seq::new(STORAGE_API_RESPONSE_DATA_BYTES as nat, |i: int| 0u8),
        len: 0,
        more: false,
    }
}

impl ResponsePayload {
    pub fn empty(status: StorageApiStatus, transaction_id: u64) -> (r: Self)
        ensures
            payload_view(r) == empty_payload(status, transaction_id),
    {
        let r = ResponsePayload {
            status,
            transaction_id,
            data: [0u8; STORAGE_API_RESPONSE_DATA_BYTES],
            len: 0,
            more: false,
        };
        assert(r.data@ =~= Seq::new(STORAGE_API_RESPONSE_DATA_BYTES as nat, |i: int| 0u8));
        r
    }
}

/// The entry at `index` of the directory at `path` in `table`: its name,
/// and whether more entries follow; no data past the last entry.
pub open spec fn list_in(table: Seq<ObjectRecord>, path: Seq<u8>, index: int, transaction_id: u64) -> PayloadView {
    match resolve_path_out(table, path) {
        Err(e) => empty_payload(status_of_error(e), transaction_id),
        Ok(parent) => if !live_id(table, parent) {
            empty_payload(StorageApiStatus::Stale, transaction_id)
        } else if table[parent.slot as int].kind != ObjectKind::Directory {
            empty_payload(StorageApiStatus::NotDirectory, transaction_id)
        } else {
            let children = children_from(table, parent, 0);
            if index >= children.len() {
                empty_payload(StorageApiStatus::Success, transaction_id)
            } else {
                let id = children[index];
                if !live_id(table, id) {
                    empty_payload(StorageApiStatus::Stale, transaction_id)
                } else {
                    let name = record_name(table[id.slot as int]);
                    if name.len() > STORAGE_API_RESPONSE_DATA_BYTES {
                        empty_payload(StorageApiStatus::TooLarge, transaction_id)
                    } else {
                        PayloadView {
                            status: StorageApiStatus::Success,
                            transaction_id,
                            data: name + Seq::new((STORAGE_API_RESPONSE_DATA_BYTES - name.len()) as nat, |i: int| 0u8),
                            len: name.len() as usize,
                            more: index + 1 < children.len(),
                        }
                    }
                }
            }
        },
    }
}

/// Answering a listing request: outside a transaction (`transaction_id`
/// 0) over the namespace, else over the active transaction, which must be
/// the one named (`NoTransaction` when none is active, `Stale` for
/// another).
pub open spec fn list_out(
    ns: Seq<ObjectRecord>,
    active: Option<(u64, Seq<ObjectRecord>)>,
    transaction_id: u64,
    path: Seq<u8>,
    index: int,
) -> PayloadView {
    if transaction_id == 0 {
        list_in(ns, path, index, transaction_id)
    } else {
        match active {
            None => empty_payload(StorageApiStatus::NoTransaction, transaction_id),
            Some((id, table)) => if id != transaction_id {
                empty_payload(StorageApiStatus::Stale, transaction_id)
            } else {
                list_in(table, path, index, transaction_id)
            },
        }
    }
}

pub open spec fn active_view(ns: Seq<ObjectRecord>, active: Option<(u64, &NamespaceTransaction)>) -> Option<
    (u64, Seq<ObjectRecord>),
> {
    match active {
        None => None,
        Some((id, t)) => Some((id, t.table(ns))),
    }
}

proof fn lemma_children_len(ns: Seq<ObjectRecord>, parent: ObjectId, i: int)
    requires
        0 <= i <= ns.len(),
    ensures
        children_from(ns, parent, i).len() <= ns.len() - i,
    decreases ns.len() - i,
{
    if i < ns.len() {
        lemma_children_len(ns, parent, i + 1);
    }
}

/// Answer a request for entry `index` of the directory at `path`, under
/// transaction `transaction_id` (0 for none); `active` is the transaction
/// in progress, if any, with its identifier.
pub fn list_response(
    ns: &ObjectNamespace,
    active: Option<(u64, &NamespaceTransaction)>,
    transaction_id: u64,
    path: &[u8],
    index: usize,
) -> (r: ResponsePayload)
    requires
        ns.wf(),
        active matches Some((_, t)) ==> t.wf(),
    ensures
        payload_view(r) == list_out(ns@, active_view(ns@, active), transaction_id, path@, index as int),
{
    let mut transaction: Option<&NamespaceTransaction> = None;
    if transaction_id != 0 {
        match active {
            None => return ResponsePayload::empty(StorageApiStatus::NoTransaction, transaction_id),
            Some((id, t)) => {
                if id != transaction_id {
                    return ResponsePayload::empty(StorageApiStatus::Stale, transaction_id);
                }
                transaction = Some(t);
            },
        }
    }
    let ghost table = match transaction {
        None => ns@,
        Some(t) => t.table(ns@),
    };
    assert(list_out(ns@, active_view(ns@, active), transaction_id, path@, index as int) == list_in(
        table,
        path@,
        index as int,
        transaction_id,
    ));
    let listed = match transaction {
        None => match ns.resolve_path(path) {
            Err(e) => Err(e),
            Ok(parent) => ns.list(parent),
        },
        Some(t) => t.list(ns, path),
    };
    let list = match listed {
        Ok(list) => list,
        Err(e) => return ResponsePayload::empty(map_error(e), transaction_id),
    };
    let ghost parent = resolve_path_out(table, path@).unwrap();
    let ghost children = children_from(table, parent, 0);
    proof {
        lemma_children_len(table, parent, 0);
    }
    assert(table.len() == crate::namespace::MAX_OBJECTS);
    let id = match list.get(index) {
        None => return ResponsePayload::empty(StorageApiStatus::Success, transaction_id),
        Some(id) => id,
    };
    assert(id == children[index as int]);
    let stated = match transaction {
        None => ns.stat(id),
        Some(t) => t.stat_id(ns, id),
    };
    let info = match stated {
        Ok(info) => info,
        Err(e) => return ResponsePayload::empty(map_error(e), transaction_id),
    };
    let length = info.name_length as usize;
    if length > STORAGE_API_RESPONSE_DATA_BYTES {
        return ResponsePayload::empty(StorageApiStatus::TooLarge, transaction_id);
    }
    let mut response = ResponsePayload::empty(StorageApiStatus::Success, transaction_id);
    let mut i: usize = 0;
    while i < length
        invariant
            i <= length,
            length <= STORAGE_API_RESPONSE_DATA_BYTES,
            length <= info.name@.len(),
            forall|j: int| 0 <= j < i ==> response.data@[j] == info.name@[j],
            forall|j: int| i <= j < STORAGE_API_RESPONSE_DATA_BYTES ==> response.data@[j] == 0,
            response.status == StorageApiStatus::Success,
            response.transaction_id == transaction_id,
            response.len == 0,
            !response.more,
        decreases length - i,
    {
        response.data[i] = info.name[i];
        i += 1;
    }
    response.len = length;
    response.more = index + 1 < list.len();
    let ghost name = record_name(table[id.slot as int]);
    assert(response.data@ =~= name + Seq::new((STORAGE_API_RESPONSE_DATA_BYTES - name.len()) as nat, |i: int| 0u8));
    response
}

} // verus!
