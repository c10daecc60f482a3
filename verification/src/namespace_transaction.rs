//! A transaction over the object namespace: journal records checked and
//! applied to a private copy of the slots they change, read back through
//! that copy over the committed table, and kept in order for the commit.

use vstd::prelude::*;
use crate::acpi::{le_u16, le_u32};
use crate::namespace::{
    CowExtent, NamespaceError, ObjectId, ObjectInfo, ObjectKind, ObjectList, ObjectNamespace, ObjectRecord,
    CREATE_KIND, MAX_COMPONENT_BYTES, MAX_FILE_BYTES, MAX_FILE_EXTENTS, MAX_OBJECTS, RENAME_KIND, TRUNCATE_KIND,
    UNLINK_KIND, WRITE_KIND, WRITE_HEADER_BYTES, RENAME_RECORD_BYTES, namespace_wf, record_result, only_slot_changed,
    create_checked, rename_checked, unlink_checked, write_checked, truncate_checked, create_record,
    plan_create_out, parent_and_name_out, resolve_path_out, live_id, find_child_out, root_id, list_result,
    stat_result, read_result, extents_result, lemma_planned_create_applies,
};
use crate::namespace_snapshot::lemma_le16_at;
use crate::user_snapshot::{le16, le32, push_le16, push_le32, push_all, push_zeros, lemma_le32_at};
use crate::namespace_snapshot::push_range;

verus! {

/// The most bytes one journal record carries.
pub const MAX_RECORD_PAYLOAD_BYTES: usize = 4064;
/// The most records one transaction holds.
pub const MAX_TRANSACTION_RECORDS: usize = 16;
/// The most file bytes one write record carries.
pub const MAX_WRITE_BYTES: usize = 4052;
/// The most write records one write takes.
pub const MAX_WRITE_RECORDS: usize = 3;
/// The most extents a transaction retires.
pub const MAX_RETIRED_EXTENTS: usize = 32;

/// A journal record waiting for the commit.
pub struct PendingRecord {
    pub kind: u16,
    pub payload: Vec<u8>,
}

/// The changes of a transaction not yet committed.
pub struct NamespaceTransaction {
    records: Vec<PendingRecord>,
    changes: [Option<ObjectRecord>; MAX_OBJECTS],
    retired_extents: Vec<CowExtent>,
}

/// A transaction as a value: its records in order, the slots it changed,
/// and the file extents it retires.
pub struct TransactionState {
    pub pending: Seq<(u16, Seq<u8>)>,
    pub changes: Seq<Option<ObjectRecord>>,
    pub retired: Seq<CowExtent>,
}

/// The table a transaction sees: its changed slots over `base`.
pub open spec fn overlay(base: Seq<ObjectRecord>, changes: Seq<Option<ObjectRecord>>) -> Seq<ObjectRecord> {
    Seq::new(
        MAX_OBJECTS as nat,
        |i: int|
            match changes[i] {
                Some(r) => r,
                None => base[i],
            },
    )
}

/// A changed slot keeps what a well-formed table asks of it.
pub open spec fn change_ok(c: Option<ObjectRecord>, slot: int) -> bool {
    match c {
        Some(r) => {
            &&& r.name_length <= MAX_COMPONENT_BYTES
            &&& r.extent_count == 0 ==> r.length <= MAX_FILE_BYTES
            &&& slot == 0 ==> r.alive && r.generation == 1 && r.kind == ObjectKind::Directory
        },
        None => true,
    }
}

pub open spec fn transaction_wf(t: TransactionState) -> bool {
    &&& t.pending.len() <= MAX_TRANSACTION_RECORDS
    &&& t.changes.len() == MAX_OBJECTS
    &&& t.retired.len() <= MAX_RETIRED_EXTENTS
    &&& forall|i: int| 0 <= i < MAX_OBJECTS ==> change_ok(#[trigger] t.changes[i], i)
}

/// What pushing a record of `kind` does: `Capacity` once the transaction
/// is full, `TooLarge` past the payload limit, else what applying it to
/// the transaction's table does; a record that applies is kept.
pub open spec fn push_outcome(
    base: Seq<ObjectRecord>,
    before: TransactionState,
    after: TransactionState,
    kind: u16,
    p: Seq<u8>,
    r: Result<(), NamespaceError>,
) -> bool {
    if before.pending.len() >= MAX_TRANSACTION_RECORDS {
        r == Err::<(), NamespaceError>(NamespaceError::Capacity) && after == before
    } else if p.len() > MAX_RECORD_PAYLOAD_BYTES {
        r == Err::<(), NamespaceError>(NamespaceError::TooLarge) && after == before
    } else {
        &&& record_result(overlay(base, before.changes), overlay(base, after.changes), kind, p, r)
        &&& after.retired == before.retired
        &&& match r {
            Ok(()) => after.pending == before.pending.push((kind, p)),
            Err(_) => after == before,
        }
    }
}

/// The create record for a new file `id` named `name` in `parent`, pushed
/// with the outcome `r`.
pub open spec fn create_pushed(
    base: Seq<ObjectRecord>,
    before: TransactionState,
    after: TransactionState,
    id: ObjectId,
    parent: ObjectId,
    name: Seq<u8>,
    r: Result<(), NamespaceError>,
) -> bool {
    exists|p: Seq<u8>|
        #[trigger] create_record(p, id, parent, ObjectKind::File, name) && push_outcome(
            base,
            before,
            after,
            CREATE_KIND,
            p,
            r,
        )
}

/// A rename record moving `id` under `parent` as `name`.
pub open spec fn rename_record(p: Seq<u8>, id: ObjectId, parent: ObjectId, name: Seq<u8>) -> bool {
    &&& p.len() == RENAME_RECORD_BYTES
    &&& le_u16(p, 0) == id.slot
    &&& le_u32(p, 2) == id.generation
    &&& le_u16(p, 6) == parent.slot
    &&& le_u32(p, 8) == parent.generation
    &&& le_u16(p, 12) == name.len()
    &&& p.subrange(14, 14 + name.len() as int) == name
    &&& forall|i: int| 14 + name.len() <= i < RENAME_RECORD_BYTES ==> #[trigger] p[i] == 0
}

pub open spec fn rename_pushed(
    base: Seq<ObjectRecord>,
    before: TransactionState,
    after: TransactionState,
    id: ObjectId,
    parent: ObjectId,
    name: Seq<u8>,
    r: Result<(), NamespaceError>,
) -> bool {
    exists|p: Seq<u8>| #[trigger] rename_record(p, id, parent, name) && push_outcome(base, before, after, RENAME_KIND, p, r)
}

/// The unlink record for `id`.
pub open spec fn unlink_payload(id: ObjectId) -> Seq<u8> {
    le16(id.slot) + le32(id.generation)
}

/// What removing `id` does: its extents are looked up, the unlink record
/// is pushed, and the extents join those the transaction retires,
/// `Capacity` past their limit with the record kept.
pub open spec fn remove_outcome(
    base: Seq<ObjectRecord>,
    before: TransactionState,
    after: TransactionState,
    id: ObjectId,
    r: Result<(), NamespaceError>,
) -> bool {
    exists|found: Result<([CowExtent; MAX_FILE_EXTENTS], usize), NamespaceError>|
        #[trigger] extents_result(overlay(base, before.changes), id, found) && match found {
            Err(e) => r == Err::<(), NamespaceError>(e) && after == before,
            Ok((extents, count)) => exists|pushed: Result<(), NamespaceError>|
                #[trigger] push_outcome(
                    base,
                    before,
                    TransactionState { retired: before.retired, ..after },
                    UNLINK_KIND,
                    unlink_payload(id),
                    pushed,
                ) && match pushed {
                    Err(e) => r == Err::<(), NamespaceError>(e) && after == before,
                    Ok(()) => if before.retired.len() + count > MAX_RETIRED_EXTENTS {
                        r == Err::<(), NamespaceError>(NamespaceError::Capacity) && after.retired == before.retired
                    } else {
                        r == Ok::<(), NamespaceError>(()) && after.retired == before.retired + extents@.take(
                            count as int,
                        )
                    },
                },
        }
}

/// How many write records `len` bytes take.
pub open spec fn chunk_count(len: int) -> int {
    (len + MAX_WRITE_BYTES - 1) / MAX_WRITE_BYTES as int
}

/// The bytes of `input` that write record `k` carries.
pub open spec fn chunk_of(input: Seq<u8>, k: int) -> Seq<u8> {
    let start = k * MAX_WRITE_BYTES;
    let end = if start + MAX_WRITE_BYTES <= input.len() {
        start + MAX_WRITE_BYTES
    } else {
        input.len() as int
    };
    input.subrange(start, end)
}

/// The truncate record that empties `id`.
pub open spec fn truncate_payload(id: ObjectId) -> Seq<u8> {
    le16(id.slot) + le32(id.generation) + le32(0)
}

/// The write record putting `chunk` into `id` at `at`.
pub open spec fn write_payload(id: ObjectId, at: int, chunk: Seq<u8>) -> Seq<u8> {
    le16(id.slot) + le32(id.generation) + le32(at as u32) + le16(chunk.len() as u16) + chunk
}

/// The write records that put `input` into `id` from `offset`.
pub open spec fn write_records(id: ObjectId, offset: int, input: Seq<u8>) -> Seq<(u16, Seq<u8>)> {
    Seq::new(
        chunk_count(input.len() as int) as nat,
        |k: int| (WRITE_KIND, write_payload(id, offset + k * MAX_WRITE_BYTES, chunk_of(input, k))),
    )
}

/// Whether a write replaces a file that holds bytes, which takes a
/// truncate record first.
pub open spec fn truncates(record: ObjectRecord, replace: bool) -> bool {
    replace && record.length != 0
}

/// The checks a write passes before its records are pushed, in order:
/// the file it names, or the first error.
pub open spec fn write_check(
    v: Seq<ObjectRecord>,
    path: Seq<u8>,
    offset: int,
    input: Seq<u8>,
    replace: bool,
    pending: int,
) -> Result<ObjectId, NamespaceError> {
    match resolve_path_out(v, path) {
        Err(e) => Err(e),
        Ok(id) => {
            let record = v[id.slot as int];
            let trunc = truncates(record, replace);
            let pushes = trunc || input.len() > 0;
            if !live_id(v, id) {
                Err(NamespaceError::Stale)
            } else if record.kind != ObjectKind::File {
                Err(NamespaceError::IsDirectory)
            } else if input.len() == 0 && !replace {
                Err(NamespaceError::TooLarge)
            } else if offset + input.len() > MAX_FILE_BYTES {
                Err(NamespaceError::TooLarge)
            } else if chunk_count(input.len() as int) > MAX_WRITE_RECORDS || pending + (if trunc {
                1int
            } else {
                0int
            }) + chunk_count(input.len() as int) > MAX_TRANSACTION_RECORDS {
                Err(NamespaceError::Capacity)
            } else if pushes && id.generation == 0 {
                Err(NamespaceError::InvalidRecord)
            } else if pushes && record.extent_count != 0 {
                Err(NamespaceError::Unsupported)
            } else {
                Ok(id)
            }
        },
    }
}

/// The file `after` is `before` emptied first where `trunc`, then with
/// `input` written at `offset`.
pub open spec fn file_written(before: ObjectRecord, after: ObjectRecord, offset: int, input: Seq<u8>, trunc: bool) -> bool {
    let start_length = if trunc {
        0
    } else {
        before.length as int
    };
    &&& after == ObjectRecord { data: after.data, length: after.length, ..before }
    &&& after.length == (if input.len() == 0 || start_length >= offset + input.len() {
        start_length
    } else {
        offset + input.len()
    })
    &&& forall|j: int|
        0 <= j < MAX_FILE_BYTES ==> #[trigger] after.data@[j] == if offset <= j < offset + input.len() {
            input[j - offset]
        } else if trunc {
            0
        } else {
            before.data@[j]
        }
}

pub open spec fn unit_of<T>(r: Result<T, NamespaceError>) -> Result<(), NamespaceError> {
    match r {
        Ok(_) => Ok(()),
        Err(e) => Err(e),
    }
}

proof fn lemma_overlay_wf(base: Seq<ObjectRecord>, t: TransactionState)
    requires
        namespace_wf(base),
        transaction_wf(t),
    ensures
        namespace_wf(overlay(base, t.changes)),
{
    let v = overlay(base, t.changes);
    assert(change_ok(t.changes[0], 0));
    assert forall|i: int| 0 <= i < MAX_OBJECTS implies (#[trigger] v[i]).name_length <= MAX_COMPONENT_BYTES && (
    v[i].extent_count == 0 ==> v[i].length <= MAX_FILE_BYTES) by {
        assert(change_ok(t.changes[i], i));
    }
}

/// A record that applies changes the slot its first two bytes name, and
/// no other.
proof fn lemma_changed_slot(before: Seq<ObjectRecord>, after: Seq<ObjectRecord>, kind: u16, p: Seq<u8>)
    requires
        namespace_wf(before),
        record_result(before, after, kind, p, Ok(())),
    ensures
        p.len() >= 2,
        0 <= le_u16(p, 0) < MAX_OBJECTS,
        only_slot_changed(before, after, le_u16(p, 0)),
{
    assert(le_u16(p, 0) == (le_u16(p, 0) as u16) as int) by {
        assert(0 <= le_u16(p, 0) <= 0xffff);
    }
    if kind == CREATE_KIND {
        assert(create_checked(before, p) is Ok);
    } else if kind == RENAME_KIND {
        assert(rename_checked(before, p) is Ok);
    } else if kind == UNLINK_KIND {
        assert(unlink_checked(before, p) is Ok);
    } else if kind == WRITE_KIND {
        assert(write_checked(before, p) is Ok);
    } else {
        assert(truncate_checked(before, p) is Ok);
    }
}

proof fn lemma_write_payload(id: ObjectId, at: int, chunk: Seq<u8>)
    requires
        0 <= at <= u32::MAX,
        chunk.len() <= MAX_WRITE_BYTES,
    ensures
        write_payload(id, at, chunk).len() == WRITE_HEADER_BYTES + chunk.len(),
        le_u16(write_payload(id, at, chunk), 0) == id.slot,
        le_u32(write_payload(id, at, chunk), 2) == id.generation,
        le_u32(write_payload(id, at, chunk), 6) == at,
        le_u16(write_payload(id, at, chunk), 10) == chunk.len(),
        forall|i: int| 0 <= i < chunk.len() ==> #[trigger] write_payload(id, at, chunk)[WRITE_HEADER_BYTES + i] == chunk[i],
{
    let p = write_payload(id, at, chunk);
    assert(p.subrange(0, 2) =~= le16(id.slot));
    assert(p.subrange(2, 6) =~= le32(id.generation));
    assert(p.subrange(6, 10) =~= le32(at as u32));
    assert(p.subrange(10, 12) =~= le16(chunk.len() as u16));
    lemma_le16_at(p, 0, id.slot);
    lemma_le32_at(p, 2, id.generation);
    lemma_le32_at(p, 6, at as u32);
    lemma_le16_at(p, 10, chunk.len() as u16);
}

impl NamespaceTransaction {
    pub closed spec fn view(&self) -> TransactionState {
        TransactionState {
            pending: self.records@.map_values(|r: PendingRecord| (r.kind, r.payload@)),
            changes: self.changes@,
            retired: self.retired_extents@,
        }
    }

    pub open spec fn wf(&self) -> bool {
        transaction_wf(self@)
    }

    /// The table this transaction sees over `base`.
    pub open spec fn table(&self, base: Seq<ObjectRecord>) -> Seq<ObjectRecord> {
        overlay(base, self@.changes)
    }

    /// A transaction with nothing in it.
    pub fn new() -> (r: Self)
        ensures
            r.wf(),
            r@.pending.len() == 0,
            r@.retired.len() == 0,
            forall|i: int| 0 <= i < MAX_OBJECTS ==> #[trigger] r@.changes[i] is None,
    {
        let r = NamespaceTransaction {
            records: Vec::new(),
            changes: [None, None, None, None],
            retired_extents: Vec::new(),
        };
        assert(r@.pending =~= Seq::<(u16, Seq<u8>)>::empty());
        r
    }

    /// How many records the transaction holds.
    pub fn record_count(&self) -> (r: usize)
        ensures
            r == self@.pending.len(),
    {
        self.records.len()
    }

    /// The table this transaction sees: its changes over `base`.
    pub fn view_over(&self, base: &ObjectNamespace) -> (r: ObjectNamespace)
        requires
            self.wf(),
            base.wf(),
        ensures
            r.wf(),
            r@ == self.table(base@),
    {
        let b0 = base.record_at(0);
        let r0 = match self.changes[0] {
            Some(r) => r,
            None => *b0,
        };
        let r1 = match self.changes[1] {
            Some(r) => r,
            None => *base.record_at(1),
        };
        let r2 = match self.changes[2] {
            Some(r) => r,
            None => *base.record_at(2),
        };
        let r3 = match self.changes[3] {
            Some(r) => r,
            None => *base.record_at(3),
        };
        let view = ObjectNamespace::from_records([r0, r1, r2, r3]);
        assert(view@ =~= self.table(base@));
        proof {
            lemma_overlay_wf(base@, self@);
        }
        view
    }

    /// Apply one record to the transaction's table.
    fn apply_record(&mut self, base: &ObjectNamespace, kind: u16, payload: &[u8]) -> (r: Result<(), NamespaceError>)
        requires
            old(self).wf(),
            base.wf(),
        ensures
            final(self).wf(),
            final(self)@.pending == old(self)@.pending,
            final(self)@.retired == old(self)@.retired,
            record_result(old(self).table(base@), final(self).table(base@), kind, payload@, r),
            r is Err ==> final(self)@ == old(self)@,
    {
        let mut view = self.view_over(base);
        let ghost before = view@;
        let r = view.apply_record(kind, payload);
        if r.is_ok() {
            proof {
                lemma_changed_slot(before, view@, kind, payload@);
            }
            let slot = payload[0] as usize + payload[1] as usize * 256;
            assert(slot == le_u16(payload@, 0));
            let record = *view.record_at(slot);
            let ghost old_changes = self@.changes;
            self.changes[slot] = Some(record);
            proof {
                assert(self@.changes == old_changes.update(slot as int, Some(record)));
                assert(self.table(base@) =~= view@);
                assert forall|i: int| 0 <= i < MAX_OBJECTS implies change_ok(#[trigger] self@.changes[i], i) by {
                    if i != slot {
                        assert(self@.changes[i] == old_changes[i]);
                    }
                }
                assert(self@.pending =~= old(self)@.pending);
            }
        }
        r
    }

    /// Check a record against the transaction's table, apply it there and
    /// keep it.
    fn push_record(&mut self, base: &ObjectNamespace, kind: u16, payload: &[u8]) -> (r: Result<(), NamespaceError>)
        requires
            old(self).wf(),
            base.wf(),
        ensures
            final(self).wf(),
            push_outcome(base@, old(self)@, final(self)@, kind, payload@, r),
    {
        if self.records.len() == MAX_TRANSACTION_RECORDS {
            return Err(NamespaceError::Capacity);
        }
        if payload.len() > MAX_RECORD_PAYLOAD_BYTES {
            return Err(NamespaceError::TooLarge);
        }
        match self.apply_record(base, kind, payload) {
            Err(e) => return Err(e),
            Ok(()) => {},
        }
        let ghost mid = self@;
        self.records.push(PendingRecord { kind, payload: vstd::slice::slice_to_vec(payload) });
        proof {
            assert(self@.pending =~= mid.pending.push((kind, payload@)));
        }
        Ok(())
    }

    /// The live children of the directory at `path`, as the transaction
    /// sees them.
    pub fn list(&self, base: &ObjectNamespace, path: &[u8]) -> (r: Result<ObjectList, NamespaceError>)
        requires
            self.wf(),
            base.wf(),
        ensures
            match resolve_path_out(self.table(base@), path@) {
                Err(e) => r == Err::<ObjectList, NamespaceError>(e),
                Ok(id) => list_result(self.table(base@), id, r),
            },
    {
        let view = self.view_over(base);
        match view.resolve_path(path) {
            Err(e) => Err(e),
            Ok(id) => view.list(id),
        }
    }

    /// What the object at `path` is, as the transaction sees it.
    pub fn stat(&self, base: &ObjectNamespace, path: &[u8]) -> (r: Result<ObjectInfo, NamespaceError>)
        requires
            self.wf(),
            base.wf(),
        ensures
            match resolve_path_out(self.table(base@), path@) {
                Err(e) => r == Err::<ObjectInfo, NamespaceError>(e),
                Ok(id) => stat_result(self.table(base@), id, r),
            },
    {
        let view = self.view_over(base);
        match view.resolve_path(path) {
            Err(e) => Err(e),
            Ok(id) => view.stat(id),
        }
    }

    /// What the object `id` is, as the transaction sees it.
    pub fn stat_id(&self, base: &ObjectNamespace, id: ObjectId) -> (r: Result<ObjectInfo, NamespaceError>)
        requires
            self.wf(),
            base.wf(),
        ensures
            stat_result(self.table(base@), id, r),
    {
        let view = self.view_over(base);
        view.stat(id)
    }

    /// Reads the file at `path` from `offset`, as the transaction sees it.
    pub fn read(&self, base: &ObjectNamespace, path: &[u8], offset: usize, output: &mut [u8]) -> (r: Result<
        usize,
        NamespaceError,
    >)
        requires
            self.wf(),
            base.wf(),
        ensures
            match resolve_path_out(self.table(base@), path@) {
                Err(e) => r == Err::<usize, NamespaceError>(e) && final(output)@ == old(output)@,
                Ok(id) => read_result(self.table(base@), id, offset as int, old(output)@, final(output)@, r),
            },
    {
        let view = self.view_over(base);
        match view.resolve_path(path) {
            Err(e) => Err(e),
            Ok(id) => view.read(id, offset, output),
        }
    }

    /// Plans a new file at `path` and keeps the create record that makes
    /// it; the new file's identifier.
    pub fn create_file(&mut self, base: &ObjectNamespace, path: &[u8]) -> (r: Result<ObjectId, NamespaceError>)
        requires
            old(self).wf(),
            base.wf(),
        ensures
            final(self).wf(),
            match parent_and_name_out(old(self).table(base@), path@) {
                Err(e) => r == Err::<ObjectId, NamespaceError>(e) && final(self)@ == old(self)@,
                Ok((parent, name)) => match plan_create_out(old(self).table(base@), parent, ObjectKind::File, name) {
                    Err(e) => r == Err::<ObjectId, NamespaceError>(e) && final(self)@ == old(self)@,
                    Ok(id) => {
                        &&& r is Ok ==> r == Ok::<ObjectId, NamespaceError>(id)
                        &&& create_pushed(base@, old(self)@, final(self)@, id, parent, name, unit_of(r))
                        &&& old(self)@.pending.len() < MAX_TRANSACTION_RECORDS && parent.generation != 0 ==> {
                            &&& r == Ok::<ObjectId, NamespaceError>(id)
                            &&& live_id(final(self).table(base@), id)
                            &&& find_child_out(final(self).table(base@), parent, name) == Ok::<
                                Option<ObjectId>,
                                NamespaceError,
                            >(Some(id))
                        }
                    },
                },
            },
    {
        let view = self.view_over(base);
        let (parent, name) = match view.parent_and_name(path) {
            Err(e) => return Err(e),
            Ok(found) => found,
        };
        let (id, payload) = match view.plan_create(parent, ObjectKind::File, name) {
            Err(e) => return Err(e),
            Ok(planned) => planned,
        };
        let ghost before = self@;
        let r = self.push_record(base, CREATE_KIND, &payload);
        proof {
            assert(create_record(payload@, id, parent, ObjectKind::File, name@));
            if before.pending.len() < MAX_TRANSACTION_RECORDS && parent.generation != 0 {
                lemma_planned_create_applies(
                    overlay(base@, before.changes),
                    self.table(base@),
                    parent,
                    ObjectKind::File,
                    name@,
                    id,
                    payload@,
                    r,
                );
            }
        }
        let result = match r {
            Err(e) => Err(e),
            Ok(()) => Ok(id),
        };
        assert(unit_of(result) == r);
        assert(create_record(payload@, id, parent, ObjectKind::File, name@) && push_outcome(
            base@,
            before,
            self@,
            CREATE_KIND,
            payload@,
            unit_of(result),
        ));
        assert(create_pushed(base@, before, self@, id, parent, name@, unit_of(result)));
        result
    }

    /// Moves the object at `from` to the path `to`.
    pub fn rename(&mut self, base: &ObjectNamespace, from: &[u8], to: &[u8]) -> (r: Result<(), NamespaceError>)
        requires
            old(self).wf(),
            base.wf(),
            ({
                let v = old(self).table(base@);
                (resolve_path_out(v, from@) is Ok && parent_and_name_out(v, to@) is Ok && resolve_path_out(v, from@)->Ok_0
                    != root_id()) ==> parent_and_name_out(v, to@)->Ok_0.1.len() <= MAX_COMPONENT_BYTES
            }),
        ensures
            final(self).wf(),
            match resolve_path_out(old(self).table(base@), from@) {
                Err(e) => r == Err::<(), NamespaceError>(e) && final(self)@ == old(self)@,
                Ok(id) => match parent_and_name_out(old(self).table(base@), to@) {
                    Err(e) => r == Err::<(), NamespaceError>(e) && final(self)@ == old(self)@,
                    Ok((parent, name)) => if id == root_id() {
                        r == Err::<(), NamespaceError>(NamespaceError::Root) && final(self)@ == old(self)@
                    } else {
                        rename_pushed(base@, old(self)@, final(self)@, id, parent, name, r)
                    },
                },
            },
    {
        let view = self.view_over(base);
        let id = match view.resolve_path(from) {
            Err(e) => return Err(e),
            Ok(id) => id,
        };
        let (parent, name) = match view.parent_and_name(to) {
            Err(e) => return Err(e),
            Ok(found) => found,
        };
        if id == (ObjectId { slot: 0, generation: 1 }) {
            return Err(NamespaceError::Root);
        }
        let mut payload: Vec<u8> = Vec::new();
        push_le16(&mut payload, id.slot);
        push_le32(&mut payload, id.generation);
        push_le16(&mut payload, parent.slot);
        push_le32(&mut payload, parent.generation);
        push_le16(&mut payload, name.len() as u16);
        push_all(&mut payload, name);
        push_zeros(&mut payload, MAX_COMPONENT_BYTES - name.len());
        proof {
            let p = payload@;
            assert(p.subrange(0, 2) =~= le16(id.slot));
            assert(p.subrange(2, 6) =~= le32(id.generation));
            assert(p.subrange(6, 8) =~= le16(parent.slot));
            assert(p.subrange(8, 12) =~= le32(parent.generation));
            assert(p.subrange(12, 14) =~= le16(name.len() as u16));
            lemma_le16_at(p, 0, id.slot);
            lemma_le32_at(p, 2, id.generation);
            lemma_le16_at(p, 6, parent.slot);
            lemma_le32_at(p, 8, parent.generation);
            lemma_le16_at(p, 12, name.len() as u16);
            assert(p.subrange(14, 14 + name@.len() as int) =~= name@);
            assert(rename_record(p, id, parent, name@));
        }
        let ghost before = self@;
        let r = self.push_record(base, RENAME_KIND, &payload);
        assert(rename_pushed(base@, before, self@, id, parent, name@, r));
        r
    }

    /// Unlinks the object at `path` and retires its extents.
    pub fn remove(&mut self, base: &ObjectNamespace, path: &[u8]) -> (r: Result<(), NamespaceError>)
        requires
            old(self).wf(),
            base.wf(),
        ensures
            final(self).wf(),
            match resolve_path_out(old(self).table(base@), path@) {
                Err(e) => r == Err::<(), NamespaceError>(e) && final(self)@ == old(self)@,
                Ok(id) => remove_outcome(base@, old(self)@, final(self)@, id, r),
            },
    {
        let view = self.view_over(base);
        let id = match view.resolve_path(path) {
            Err(e) => return Err(e),
            Ok(id) => id,
        };
        let found = view.file_extents(id);
        let ghost before = self@;
        let (extents, count) = match found {
            Err(e) => {
                assert(remove_outcome(base@, before, self@, id, Err(e)));
                return Err(e);
            },
            Ok(found) => found,
        };
        let mut payload: Vec<u8> = Vec::new();
        push_le16(&mut payload, id.slot);
        push_le32(&mut payload, id.generation);
        assert(payload@ =~= unlink_payload(id));
        let pushed = self.push_record(base, UNLINK_KIND, &payload);
        assert(push_outcome(base@, before, TransactionState { retired: before.retired, ..self@ }, UNLINK_KIND, unlink_payload(id), pushed)) by {
            assert(TransactionState { retired: before.retired, ..self@ } == self@);
        }
        match pushed {
            Err(e) => {
                assert(remove_outcome(base@, before, self@, id, Err(e)));
                return Err(e);
            },
            Ok(()) => {},
        }
        let ghost mid = self@;
        if self.retired_extents.len() + count > MAX_RETIRED_EXTENTS {
            assert(remove_outcome(base@, before, self@, id, Err(NamespaceError::Capacity)));
            return Err(NamespaceError::Capacity);
        }
        let mut k: usize = 0;
        while k < count
            invariant
                k <= count <= MAX_FILE_EXTENTS,
                mid.retired.len() + count <= MAX_RETIRED_EXTENTS,
                self@ == (TransactionState { retired: mid.retired + extents@.take(k as int), ..mid }),
            decreases count - k,
        {
            self.retired_extents.push(extents[k]);
            k += 1;
            assert(self@.retired =~= mid.retired + extents@.take(k as int));
            assert(self@.pending == mid.pending);
        }
        proof {
            assert(TransactionState { retired: before.retired, ..self@ } == mid);
            assert forall|i: int| 0 <= i < MAX_OBJECTS implies change_ok(#[trigger] self@.changes[i], i) by {
                assert(change_ok(mid.changes[i], i));
            }
            assert(remove_outcome(base@, before, self@, id, Ok(())));
        }
        Ok(())
    }

    /// Puts the transaction's changed slots into `namespace`; the extents
    /// it retires.
    pub fn apply_to(self, namespace: &mut ObjectNamespace) -> (r: Vec<CowExtent>)
        requires
            self.wf(),
            old(namespace).wf(),
        ensures
            final(namespace).wf(),
            final(namespace)@ == self.table(old(namespace)@),
            r@ == self@.retired,
    {
        let merged = self.view_over(namespace);
        *namespace = merged;
        self.retired_extents
    }

    /// Pushes the records of one write record: `input` at `offset +
    /// copied`, the `copied`-th chunk.
    fn push_chunk(
        &mut self,
        base: &ObjectNamespace,
        id: ObjectId,
        offset: usize,
        input: &[u8],
        copied: usize,
        n: usize,
    ) -> (r: Result<(), NamespaceError>)
        requires
            old(self).wf(),
            base.wf(),
            copied + n <= input@.len(),
            offset + copied + n <= MAX_FILE_BYTES,
            0 < n <= MAX_WRITE_BYTES,
        ensures
            final(self).wf(),
            push_outcome(
                base@,
                old(self)@,
                final(self)@,
                WRITE_KIND,
                write_payload(id, offset + copied, input@.subrange(copied as int, copied + n)),
                r,
            ),
    {
        let mut payload: Vec<u8> = Vec::new();
        push_le16(&mut payload, id.slot);
        push_le32(&mut payload, id.generation);
        push_le32(&mut payload, (offset + copied) as u32);
        push_le16(&mut payload, n as u16);
        push_range(&mut payload, input, copied, copied + n);
        assert(payload@ =~= write_payload(id, offset + copied, input@.subrange(copied as int, copied + n)));
        self.push_record(base, WRITE_KIND, &payload)
    }

    /// Writes `input` into the file at `path` from `offset`, emptying it
    /// first where `replace`; the number of bytes written.
    pub fn write(&mut self, base: &ObjectNamespace, path: &[u8], offset: usize, input: &[u8], replace: bool) -> (r: Result<
        usize,
        NamespaceError,
    >)
        requires
            old(self).wf(),
            base.wf(),
        ensures
            final(self).wf(),
            match write_check(
                old(self).table(base@),
                path@,
                offset as int,
                input@,
                replace,
                old(self)@.pending.len() as int,
            ) {
                Err(e) => r == Err::<usize, NamespaceError>(e) && final(self)@ == old(self)@,
                Ok(id) => {
                    let before = old(self).table(base@)[id.slot as int];
                    let trunc = truncates(before, replace);
                    &&& r == Ok::<usize, NamespaceError>(input@.len() as usize)
                    &&& final(self)@.retired == old(self)@.retired
                    &&& final(self)@.pending == old(self)@.pending + (if trunc {
                        seq![(TRUNCATE_KIND, truncate_payload(id))]
                    } else {
                        Seq::empty()
                    }) + write_records(id, offset as int, input@)
                    &&& only_slot_changed(old(self).table(base@), final(self).table(base@), id.slot as int)
                    &&& file_written(before, final(self).table(base@)[id.slot as int], offset as int, input@, trunc)
                },
            },
    {
        let ghost start = self@;
        let ghost t0 = self.table(base@);
        let view = self.view_over(base);
        let id = match view.resolve_path(path) {
            Err(e) => return Err(e),
            Ok(id) => id,
        };
        let slot = match view.object_slot(id) {
            Err(e) => return Err(e),
            Ok(slot) => slot,
        };
        let record = view.record_at(slot);
        let ghost before = *record;
        if record.kind != ObjectKind::File {
            return Err(NamespaceError::IsDirectory);
        }
        if input.len() == 0 && !replace {
            return Err(NamespaceError::TooLarge);
        }
        if offset > MAX_FILE_BYTES || input.len() > MAX_FILE_BYTES - offset {
            return Err(NamespaceError::TooLarge);
        }
        let count = (input.len() + MAX_WRITE_BYTES - 1) / MAX_WRITE_BYTES;
        let trunc = replace && record.length != 0;
        let trunc_count: usize = if trunc { 1 } else { 0 };
        if count > MAX_WRITE_RECORDS || self.records.len() + trunc_count + count > MAX_TRANSACTION_RECORDS {
            return Err(NamespaceError::Capacity);
        }
        let ghost empty_input = input@.take(0);
        if trunc {
            let mut payload: Vec<u8> = Vec::new();
            push_le16(&mut payload, id.slot);
            push_le32(&mut payload, id.generation);
            push_le32(&mut payload, 0);
            assert(payload@ =~= truncate_payload(id));
            proof {
                let p = payload@;
                assert(p.subrange(0, 2) =~= le16(id.slot));
                assert(p.subrange(2, 6) =~= le32(id.generation));
                assert(p.subrange(6, 10) =~= le32(0));
                lemma_le16_at(p, 0, id.slot);
                lemma_le32_at(p, 2, id.generation);
                lemma_le32_at(p, 6, 0);
            }
            match self.push_record(base, TRUNCATE_KIND, &payload) {
                Err(e) => return Err(e),
                Ok(()) => {},
            }
            proof {
                assert(file_written(before, self.table(base@)[slot as int], offset as int, empty_input, true));
            }
        } else {
            assert(self.table(base@) == t0);
            assert(before == t0[slot as int]);
            assert(file_written(before, self.table(base@)[slot as int], offset as int, empty_input, false));
        }
        if input.len() == 0 {
            assert(write_records(id, offset as int, input@) =~= Seq::<(u16, Seq<u8>)>::empty());
            assert(input@.take(0) =~= input@);
            return Ok(0);
        }
        let ghost p0 = self@.pending;
        proof {
            if trunc {
                assert(p0 =~= start.pending + seq![(TRUNCATE_KIND, truncate_payload(id))]);
            } else {
                assert(p0 =~= start.pending + Seq::<(u16, Seq<u8>)>::empty());
            }
            assert(write_records(id, offset as int, input@).take(0) =~= Seq::<(u16, Seq<u8>)>::empty());
            assert(self@.pending =~= p0 + write_records(id, offset as int, input@).take(0));
        }
        let mut copied: usize = 0;
        let mut k: usize = 0;
        while copied < input.len()
            invariant
                self.wf(),
                base.wf(),
                0 < input@.len(),
                offset + input@.len() <= MAX_FILE_BYTES,
                count == chunk_count(input@.len() as int),
                count <= MAX_WRITE_RECORDS,
                slot == id.slot,
                copied <= input@.len(),
                k <= count,
                copied < input@.len() ==> copied == k * MAX_WRITE_BYTES,
                copied == input@.len() ==> k == count,
                self@.pending == p0 + write_records(id, offset as int, input@).take(k as int),
                p0.len() + count <= MAX_TRANSACTION_RECORDS,
                self@.retired == start.retired,
                only_slot_changed(t0, self.table(base@), slot as int),
                file_written(before, self.table(base@)[slot as int], offset as int, input@.take(copied as int), trunc),
                before.kind == ObjectKind::File,
                live_id(self.table(base@), id),
                self.table(base@)[slot as int].kind == ObjectKind::File,
                k > 0 || trunc ==> id.generation != 0 && self.table(base@)[slot as int].extent_count == 0,
                k == 0 && !trunc ==> self@ == start,
                k == 0 ==> copied == 0,
                trunc == truncates(before, replace),
                before == t0[slot as int],
                t0 == overlay(base@, start.changes),
                start == old(self)@,
                write_check(t0, path@, offset as int, input@, replace, start.pending.len() as int) == (if id.generation
                    == 0 {
                    Err::<ObjectId, NamespaceError>(NamespaceError::InvalidRecord)
                } else if before.extent_count != 0 {
                    Err::<ObjectId, NamespaceError>(NamespaceError::Unsupported)
                } else {
                    Ok::<ObjectId, NamespaceError>(id)
                }),
                p0 == start.pending + (if trunc {
                    seq![(TRUNCATE_KIND, truncate_payload(id))]
                } else {
                    Seq::empty()
                }),
            decreases input@.len() - copied,
        {
            let n = if input.len() - copied < MAX_WRITE_BYTES { input.len() - copied } else { MAX_WRITE_BYTES };
            let ghost t1 = self.table(base@);
            proof {
                assert(k < count) by (nonlinear_arith)
                    requires
                        k * 4052 < input@.len(),
                        count == (input@.len() + 4051) / 4052,
                ;
                assert(input@.subrange(copied as int, copied + n) =~= chunk_of(input@, k as int));
            }
            let ghost payload = write_payload(id, offset + copied, chunk_of(input@, k as int));
            proof {
                lemma_write_payload(id, offset + copied, chunk_of(input@, k as int));
                if k > 0 || trunc {
                    assert(write_checked(t1, payload) is Ok);
                }
            }
            let pushed = self.push_chunk(base, id, offset, input, copied, n);
            match pushed {
                Err(e) => {
                    assert(k == 0 && !trunc);
                    assert(write_checked(t0, payload) == Err::<(int, int, int), NamespaceError>(e));
                    return Err(e);
                },
                Ok(()) => {},
            }
            proof {
                assert(write_records(id, offset as int, input@).take(k + 1) =~= write_records(id, offset as int, input@).take(
                    k as int,
                ).push((WRITE_KIND, write_payload(id, offset + copied, chunk_of(input@, k as int)))));
                if copied + n == input@.len() {
                    assert(k + 1 == count) by (nonlinear_arith)
                        requires
                            k * 4052 < input@.len(),
                            input@.len() <= k * 4052 + 4052,
                            count == (input@.len() + 4051) / 4052,
                    ;
                }
            }
            copied = copied + n;
            k = k + 1;
        }
        Ok(input.len())
    }

    /// Drops the transaction and everything in it.
    pub fn abort(self) {
    }
}

/// What a transaction writes into a file, reading the file back at the
/// same offset gives: bytes written past the file's old end extend it,
/// and a buffer as long as the write is filled with exactly those bytes.
pub proof fn lemma_read_your_writes(
    table: Seq<ObjectRecord>,
    id: ObjectId,
    before: ObjectRecord,
    offset: int,
    input: Seq<u8>,
    trunc: bool,
    buffer: Seq<u8>,
    out: Seq<u8>,
    r: Result<usize, NamespaceError>,
)
    requires
        live_id(table, id),
        table[id.slot as int].kind == ObjectKind::File,
        table[id.slot as int].extent_count == 0,
        file_written(before, table[id.slot as int], offset, input, trunc),
        0 <= offset,
        offset + input.len() <= MAX_FILE_BYTES,
        input.len() > 0,
        buffer.len() == input.len(),
        read_result(table, id, offset, buffer, out, r),
    ensures
        r == Ok::<usize, NamespaceError>(input.len() as usize),
        out == input,
{
    let after = table[id.slot as int];
    assert(after.length >= offset + input.len());
    assert(out =~= input) by {
        assert forall|j: int| 0 <= j < input.len() implies out[j] == input[j] by {
            assert(after.data@[offset + j] == input[j]);
        }
    }
}

} // verus!
