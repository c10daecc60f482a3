//! The storage object namespace: a small table of files and directories
//! named by slot and generation, changed only by replaying journal
//! records, and looked up by path.

use vstd::prelude::*;
use crate::acpi::{le_u16, le_u32};
use crate::codec::same_outside;
use crate::package_catalog::PackageCatalogError;

verus! {

pub const MAX_OBJECTS: usize = 4;
pub const MAX_COMPONENT_BYTES: usize = 255;
pub const MAX_PATH_DEPTH: usize = 32;
pub const MAX_FILE_EXTENTS: usize = 8;
pub const MAX_FILE_BLOCKS: usize = 2;
/// Bytes in a storage block.
pub const BLOCK_BYTES: usize = 4096;
pub const MAX_FILE_BYTES: usize = 8192;
pub const WRITE_HEADER_BYTES: usize = 12;
pub const CREATE_KIND: u16 = 1;
pub const RENAME_KIND: u16 = 2;
pub const UNLINK_KIND: u16 = 3;
pub const WRITE_KIND: u16 = 4;
pub const TRUNCATE_KIND: u16 = 5;
/// Bytes of a create record: object, parent, kind, name length, name.
pub const CREATE_RECORD_BYTES: usize = 270;
/// Bytes of a rename record: object, new parent, name length, name.
pub const RENAME_RECORD_BYTES: usize = 269;

/// An object slot together with the generation that names its current
/// occupant; generation 0 names nothing.
#[derive(Clone, Copy, Debug, PartialEq, Eq, Structural)]
pub struct ObjectId {
    pub slot: u16,
    pub generation: u32,
}

impl ObjectId {
    pub closed spec fn spec_slot(self) -> u16 {
        self.slot
    }

    pub closed spec fn spec_generation(self) -> u32 {
        self.generation
    }

    /// The root directory: slot 0, generation 1.
    pub fn root() -> (r: Self)
        ensures
            r.spec_slot() == 0,
            r.spec_generation() == 1,
    {
        ObjectId { slot: 0, generation: 1 }
    }

    pub fn new(slot: u16, generation: u32) -> (r: Option<Self>)
        ensures
            match r {
                Some(id) => generation != 0 && id.spec_slot() == slot && id.spec_generation() == generation,
                None => generation == 0,
            },
    {
        if generation == 0 {
            None
        } else {
            Some(ObjectId { slot, generation })
        }
    }

    pub fn slot(self) -> (r: u16)
        ensures
            r == self.spec_slot(),
    {
        self.slot
    }

    pub fn generation(self) -> (r: u32)
        ensures
            r == self.spec_generation(),
    {
        self.generation
    }
}

#[derive(Clone, Copy, Debug, PartialEq, Eq, Structural)]
pub enum ObjectKind {
    File,
    Directory,
}

/// A run of blocks that holds file data; no blocks for none.
#[derive(Clone, Copy, Debug, PartialEq, Eq, Structural)]
pub struct CowExtent {
    pub start: u64,
    pub blocks: u32,
}

#[derive(Clone, Copy, Debug, PartialEq, Eq, Structural)]
pub enum NamespaceError {
    Capacity,
    InvalidName,
    InvalidPath,
    NotFound,
    NotDirectory,
    AlreadyExists,
    IsDirectory,
    Root,
    NotEmpty,
    Stale,
    TooLarge,
    InvalidRecord,
    GenerationExhausted,
    Recovery,
    Unsupported,
    Package(PackageCatalogError),
}

/// One slot of the object table.
#[derive(Clone, Copy)]
pub struct ObjectRecord {
    pub generation: u32,
    pub parent: ObjectId,
    pub kind: ObjectKind,
    pub alive: bool,
    pub name_length: u16,
    pub name: [u8; MAX_COMPONENT_BYTES],
    pub length: u32,
    pub extent_count: u8,
    pub extents: [CowExtent; MAX_FILE_EXTENTS],
    pub data: [u8; MAX_FILE_BYTES],
}

/// The object table.
#[derive(Clone, Copy)]
pub struct ObjectNamespace {
    records: [ObjectRecord; MAX_OBJECTS],
}

// ----- the model -----

pub open spec fn root_id() -> ObjectId {
    ObjectId { slot: 0, generation: 1 }
}

/// `id` names the live object in its slot.
pub open spec fn live_id(ns: Seq<ObjectRecord>, id: ObjectId) -> bool {
    &&& (id.slot as int) < ns.len()
    &&& ns[id.slot as int].alive
    &&& ns[id.slot as int].generation == id.generation
}

pub open spec fn record_name(r: ObjectRecord) -> Seq<u8> {
    r.name@.take(r.name_length as int)
}

/// A name for one path component: not empty, not too long, and with no
/// zero byte or slash.
pub open spec fn component_valid(name: Seq<u8>) -> bool {
    &&& 0 < name.len() <= MAX_COMPONENT_BYTES
    &&& forall|i: int| 0 <= i < name.len() ==> #[trigger] name[i] != 0 && name[i] != 0x2f
}

/// Slot `i` holds a live child of `parent` named `name`.
pub open spec fn child_at(ns: Seq<ObjectRecord>, parent: ObjectId, name: Seq<u8>, i: int) -> bool {
    ns[i].alive && ns[i].parent == parent && record_name(ns[i]) == name
}

/// The first slot at or after `i` holding a live child of `parent` named
/// `name`.
pub open spec fn first_child(ns: Seq<ObjectRecord>, parent: ObjectId, name: Seq<u8>, i: int) -> Option<int>
    decreases ns.len() - i,
{
    if i < 0 || i >= ns.len() {
        None
    } else if child_at(ns, parent, name, i) {
        Some(i)
    } else {
        first_child(ns, parent, name, i + 1)
    }
}

pub open spec fn id_at(ns: Seq<ObjectRecord>, slot: int) -> ObjectId {
    ObjectId { slot: slot as u16, generation: ns[slot].generation }
}

/// The child of a live `parent` named `name`, if any.
pub open spec fn find_child_out(ns: Seq<ObjectRecord>, parent: ObjectId, name: Seq<u8>) -> Result<
    Option<ObjectId>,
    NamespaceError,
> {
    if !live_id(ns, parent) {
        Err(NamespaceError::Stale)
    } else {
        match first_child(ns, parent, name, 0) {
            Some(i) => Ok(Some(id_at(ns, i))),
            None => Ok(None),
        }
    }
}

/// The first slot at or after `i` that holds nothing live.
pub open spec fn first_dead(ns: Seq<ObjectRecord>, i: int) -> Option<int>
    decreases ns.len() - i,
{
    if i < 0 || i >= ns.len() {
        None
    } else if !ns[i].alive {
        Some(i)
    } else {
        first_dead(ns, i + 1)
    }
}

pub open spec fn kind_byte(kind: ObjectKind) -> u8 {
    match kind {
        ObjectKind::File => 1,
        ObjectKind::Directory => 2,
    }
}

/// The create record for `id` under `parent`: slot and generation of
/// each, the kind, the name length and the name, zeros after it.
pub open spec fn create_record(p: Seq<u8>, id: ObjectId, parent: ObjectId, kind: ObjectKind, name: Seq<u8>) -> bool {
    &&& p.len() == CREATE_RECORD_BYTES
    &&& le_u16(p, 0) == id.slot
    &&& le_u32(p, 2) == id.generation
    &&& le_u16(p, 6) == parent.slot
    &&& le_u32(p, 8) == parent.generation
    &&& p[12] == kind_byte(kind)
    &&& le_u16(p, 13) == name.len()
    &&& p.subrange(15, 15 + name.len() as int) == name
    &&& forall|i: int| 15 + name.len() <= i < CREATE_RECORD_BYTES ==> #[trigger] p[i] == 0
}

/// What planning a create gives: the new object's identifier, the
/// next generation of the first free slot.
pub open spec fn plan_create_out(ns: Seq<ObjectRecord>, parent: ObjectId, kind: ObjectKind, name: Seq<u8>) -> Result<
    ObjectId,
    NamespaceError,
> {
    if !live_id(ns, parent) {
        Err(NamespaceError::Stale)
    } else if ns[parent.slot as int].kind != ObjectKind::Directory {
        Err(NamespaceError::NotDirectory)
    } else if !component_valid(name) {
        Err(NamespaceError::InvalidName)
    } else if first_child(ns, parent, name, 0) is Some {
        Err(NamespaceError::AlreadyExists)
    } else {
        match first_dead(ns, 0) {
            None => Err(NamespaceError::Capacity),
            Some(slot) => if ns[slot].generation == u32::MAX {
                Err(NamespaceError::GenerationExhausted)
            } else {
                Ok(ObjectId { slot: slot as u16, generation: (ns[slot].generation + 1) as u32 })
            },
        }
    }
}

pub open spec fn kind_of(byte: u8) -> ObjectKind {
    if byte == 1 {
        ObjectKind::File
    } else {
        ObjectKind::Directory
    }
}

/// The name a record carries: `length` bytes at `at`.
pub open spec fn name_field(p: Seq<u8>, at: int, length: int) -> Seq<u8> {
    p.subrange(at, at + length)
}

/// A create record that passes its own checks and those against the
/// table gives the new object's slot and generation, its parent, kind
/// and name.
pub open spec fn create_checked(ns: Seq<ObjectRecord>, p: Seq<u8>) -> Result<
    (int, u32, ObjectId, ObjectKind, Seq<u8>),
    NamespaceError,
> {
    if p.len() != CREATE_RECORD_BYTES {
        Err(NamespaceError::InvalidRecord)
    } else if le_u32(p, 2) == 0 || le_u32(p, 8) == 0 || !(p[12] == 1 || p[12] == 2) || le_u16(p, 13) == 0
        || le_u16(p, 13) > MAX_COMPONENT_BYTES {
        Err(NamespaceError::InvalidRecord)
    } else {
        let name = name_field(p, 15, le_u16(p, 13));
        let parent = ObjectId { slot: le_u16(p, 6) as u16, generation: le_u32(p, 8) as u32 };
        let slot = le_u16(p, 0);
        let generation = le_u32(p, 2) as u32;
        if !component_valid(name) {
            Err(NamespaceError::InvalidName)
        } else if !live_id(ns, parent) {
            Err(NamespaceError::Stale)
        } else if ns[parent.slot as int].kind != ObjectKind::Directory {
            Err(NamespaceError::NotDirectory)
        } else if first_child(ns, parent, name, 0) is Some {
            Err(NamespaceError::AlreadyExists)
        } else if slot >= ns.len() || ns[slot].alive || ns[slot].generation >= generation {
            Err(NamespaceError::InvalidRecord)
        } else {
            Ok((slot, generation, parent, kind_of(p[12]), name))
        }
    }
}

/// A live object just made: no data, no extents, the given name.
pub open spec fn fresh_object(r: ObjectRecord, generation: u32, parent: ObjectId, kind: ObjectKind, name: Seq<u8>) -> bool {
    &&& r.generation == generation
    &&& r.parent == parent
    &&& r.kind == kind
    &&& r.alive
    &&& r.name_length == name.len()
    &&& record_name(r) == name
    &&& forall|i: int| name.len() <= i < MAX_COMPONENT_BYTES ==> #[trigger] r.name@[i] == 0
    &&& r.length == 0
    &&& r.extent_count == 0
    &&& forall|i: int| 0 <= i < MAX_FILE_EXTENTS ==> #[trigger] r.extents@[i] == (CowExtent { start: 0, blocks: 0 })
    &&& forall|i: int| 0 <= i < MAX_FILE_BYTES ==> #[trigger] r.data@[i] == 0
}

/// `after` is `before` with slot `slot` alone changed.
pub open spec fn only_slot_changed(before: Seq<ObjectRecord>, after: Seq<ObjectRecord>, slot: int) -> bool {
    &&& after.len() == before.len()
    &&& forall|j: int| 0 <= j < before.len() && j != slot ==> #[trigger] after[j] == before[j]
}

/// What replaying a create record does.
pub open spec fn create_result(before: Seq<ObjectRecord>, after: Seq<ObjectRecord>, p: Seq<u8>, r: Result<(), NamespaceError>) -> bool {
    match create_checked(before, p) {
        Err(e) => r == Err::<(), NamespaceError>(e) && after == before,
        Ok((slot, generation, parent, kind, name)) => {
            &&& r == Ok::<(), NamespaceError>(())
            &&& only_slot_changed(before, after, slot)
            &&& fresh_object(after[slot], generation, parent, kind, name)
        },
    }
}

/// Walking up from `current` through parents, at most `fuel` steps:
/// whether `object` is met before the root.
pub open spec fn walk_up(ns: Seq<ObjectRecord>, object: ObjectId, current: ObjectId, fuel: nat) -> Result<bool, NamespaceError>
    decreases fuel,
{
    if fuel == 0 {
        Err(NamespaceError::InvalidRecord)
    } else if current == object {
        Ok(true)
    } else if current == root_id() {
        Ok(false)
    } else if !live_id(ns, current) {
        Err(NamespaceError::Stale)
    } else {
        walk_up(ns, object, ns[current.slot as int].parent, (fuel - 1) as nat)
    }
}

/// A rename record that passes its checks gives the object's slot, its
/// new parent and its new name. Moving a directory beneath itself is
/// `InvalidPath`.
pub open spec fn rename_checked(ns: Seq<ObjectRecord>, p: Seq<u8>) -> Result<(int, ObjectId, Seq<u8>), NamespaceError> {
    let id = ObjectId { slot: le_u16(p, 0) as u16, generation: le_u32(p, 2) as u32 };
    let parent = ObjectId { slot: le_u16(p, 6) as u16, generation: le_u32(p, 8) as u32 };
    let name = name_field(p, 14, le_u16(p, 12));
    if p.len() != RENAME_RECORD_BYTES || le_u32(p, 2) == 0 {
        Err(NamespaceError::InvalidRecord)
    } else if id == root_id() {
        Err(NamespaceError::Root)
    } else if le_u32(p, 8) == 0 || le_u16(p, 12) == 0 || le_u16(p, 12) > MAX_COMPONENT_BYTES {
        Err(NamespaceError::InvalidRecord)
    } else if !component_valid(name) {
        Err(NamespaceError::InvalidName)
    } else if !live_id(ns, parent) {
        Err(NamespaceError::Stale)
    } else if ns[parent.slot as int].kind != ObjectKind::Directory {
        Err(NamespaceError::NotDirectory)
    } else if (match first_child(ns, parent, name, 0) {
        Some(i) => id_at(ns, i) != id,
        None => false,
    }) {
        Err(NamespaceError::AlreadyExists)
    } else {
        match walk_up(ns, id, parent, (MAX_OBJECTS + 1) as nat) {
            Err(e) => Err(e),
            Ok(true) => Err(NamespaceError::InvalidPath),
            Ok(false) => if !live_id(ns, id) {
                Err(NamespaceError::Stale)
            } else {
                Ok((id.slot as int, parent, name))
            },
        }
    }
}

/// `after` is `before` moved under `parent` with the name `name`.
pub open spec fn renamed(before: ObjectRecord, after: ObjectRecord, parent: ObjectId, name: Seq<u8>) -> bool {
    &&& after.parent == parent
    &&& after.name_length == name.len()
    &&& record_name(after) == name
    &&& forall|i: int| name.len() <= i < MAX_COMPONENT_BYTES ==> #[trigger] after.name@[i] == 0
    &&& after == ObjectRecord { parent: after.parent, name_length: after.name_length, name: after.name, ..before }
}

pub open spec fn rename_result(before: Seq<ObjectRecord>, after: Seq<ObjectRecord>, p: Seq<u8>, r: Result<(), NamespaceError>) -> bool {
    match rename_checked(before, p) {
        Err(e) => r == Err::<(), NamespaceError>(e) && after == before,
        Ok((slot, parent, name)) => {
            &&& r == Ok::<(), NamespaceError>(())
            &&& only_slot_changed(before, after, slot)
            &&& renamed(before[slot], after[slot], parent, name)
        },
    }
}

/// Some live object has `id` for its parent.
pub open spec fn has_children(ns: Seq<ObjectRecord>, id: ObjectId) -> bool {
    exists|j: int| 0 <= j < ns.len() && #[trigger] ns[j].alive && ns[j].parent == id
}

/// An unlink record that passes its checks gives the slot to free; the
/// root cannot go, nor a directory that has children.
pub open spec fn unlink_checked(ns: Seq<ObjectRecord>, p: Seq<u8>) -> Result<int, NamespaceError> {
    let id = ObjectId { slot: le_u16(p, 0) as u16, generation: le_u32(p, 2) as u32 };
    if p.len() != 6 || le_u32(p, 2) == 0 {
        Err(NamespaceError::InvalidRecord)
    } else if id == root_id() {
        Err(NamespaceError::Root)
    } else if !live_id(ns, id) {
        Err(NamespaceError::Stale)
    } else if ns[id.slot as int].kind == ObjectKind::Directory && has_children(ns, id) {
        Err(NamespaceError::NotEmpty)
    } else {
        Ok(id.slot as int)
    }
}

pub open spec fn unlink_result(before: Seq<ObjectRecord>, after: Seq<ObjectRecord>, p: Seq<u8>, r: Result<(), NamespaceError>) -> bool {
    match unlink_checked(before, p) {
        Err(e) => r == Err::<(), NamespaceError>(e) && after == before,
        Ok(slot) => {
            &&& r == Ok::<(), NamespaceError>(())
            &&& only_slot_changed(before, after, slot)
            &&& after[slot] == ObjectRecord { alive: false, ..before[slot] }
        },
    }
}

/// A write record that passes its checks gives the file's slot and the
/// byte range it writes.
pub open spec fn write_checked(ns: Seq<ObjectRecord>, p: Seq<u8>) -> Result<(int, int, int), NamespaceError> {
    let id = ObjectId { slot: le_u16(p, 0) as u16, generation: le_u32(p, 2) as u32 };
    let offset = le_u32(p, 6);
    let length = le_u16(p, 10);
    if p.len() < WRITE_HEADER_BYTES || le_u32(p, 2) == 0 {
        Err(NamespaceError::InvalidRecord)
    } else if length != p.len() - WRITE_HEADER_BYTES || offset + length > MAX_FILE_BYTES {
        Err(NamespaceError::InvalidRecord)
    } else if !live_id(ns, id) {
        Err(NamespaceError::Stale)
    } else if ns[id.slot as int].kind != ObjectKind::File {
        Err(NamespaceError::IsDirectory)
    } else if ns[id.slot as int].extent_count != 0 {
        Err(NamespaceError::Unsupported)
    } else {
        Ok((id.slot as int, offset, length))
    }
}

pub open spec fn write_result(before: Seq<ObjectRecord>, after: Seq<ObjectRecord>, p: Seq<u8>, r: Result<(), NamespaceError>) -> bool {
    match write_checked(before, p) {
        Err(e) => r == Err::<(), NamespaceError>(e) && after == before,
        Ok((slot, offset, length)) => {
            &&& r == Ok::<(), NamespaceError>(())
            &&& only_slot_changed(before, after, slot)
            &&& after[slot] == ObjectRecord { data: after[slot].data, length: after[slot].length, ..before[slot] }
            &&& after[slot].length == (if before[slot].length >= offset + length {
                before[slot].length as int
            } else {
                offset + length
            })
            &&& forall|j: int|
                0 <= j < MAX_FILE_BYTES ==> #[trigger] after[slot].data@[j] == if offset <= j < offset + length {
                    p[WRITE_HEADER_BYTES + j - offset]
                } else {
                    before[slot].data@[j]
                }
        },
    }
}

/// A truncate record that passes its checks gives the file's slot and
/// its new length.
pub open spec fn truncate_checked(ns: Seq<ObjectRecord>, p: Seq<u8>) -> Result<(int, int), NamespaceError> {
    let id = ObjectId { slot: le_u16(p, 0) as u16, generation: le_u32(p, 2) as u32 };
    let length = le_u32(p, 6);
    if p.len() != 10 || le_u32(p, 2) == 0 || length > MAX_FILE_BYTES {
        Err(NamespaceError::InvalidRecord)
    } else if !live_id(ns, id) {
        Err(NamespaceError::Stale)
    } else if ns[id.slot as int].kind != ObjectKind::File {
        Err(NamespaceError::IsDirectory)
    } else if ns[id.slot as int].extent_count != 0 {
        Err(NamespaceError::Unsupported)
    } else {
        Ok((id.slot as int, length))
    }
}

pub open spec fn truncate_result(before: Seq<ObjectRecord>, after: Seq<ObjectRecord>, p: Seq<u8>, r: Result<(), NamespaceError>) -> bool {
    match truncate_checked(before, p) {
        Err(e) => r == Err::<(), NamespaceError>(e) && after == before,
        Ok((slot, length)) => {
            &&& r == Ok::<(), NamespaceError>(())
            &&& only_slot_changed(before, after, slot)
            &&& after[slot] == ObjectRecord { data: after[slot].data, length: length as u32, ..before[slot] }
            &&& forall|j: int|
                0 <= j < MAX_FILE_BYTES ==> #[trigger] after[slot].data@[j] == if j < length {
                    before[slot].data@[j]
                } else {
                    0
                }
        },
    }
}

/// What replaying a record of `kind` does.
pub open spec fn record_result(
    before: Seq<ObjectRecord>,
    after: Seq<ObjectRecord>,
    kind: u16,
    p: Seq<u8>,
    r: Result<(), NamespaceError>,
) -> bool {
    if kind == CREATE_KIND {
        create_result(before, after, p, r)
    } else if kind == RENAME_KIND {
        rename_result(before, after, p, r)
    } else if kind == UNLINK_KIND {
        unlink_result(before, after, p, r)
    } else if kind == WRITE_KIND {
        write_result(before, after, p, r)
    } else if kind == TRUNCATE_KIND {
        truncate_result(before, after, p, r)
    } else {
        r == Err::<(), NamespaceError>(NamespaceError::InvalidRecord) && after == before
    }
}

// ----- paths -----

/// The first slash of `path` at or after `i`, or its length.
pub open spec fn next_slash(path: Seq<u8>, i: int) -> int
    decreases path.len() - i,
{
    if i < 0 || i >= path.len() {
        path.len() as int
    } else if path[i] == 0x2f {
        i
    } else {
        next_slash(path, i + 1)
    }
}

pub proof fn lemma_next_slash(path: Seq<u8>, i: int)
    requires
        0 <= i,
    ensures
        i <= path.len() ==> i <= next_slash(path, i) <= path.len(),
        next_slash(path, i) < path.len() ==> path[next_slash(path, i)] == 0x2f,
        forall|j: int| i <= j < next_slash(path, i) ==> path[j] != 0x2f,
    decreases path.len() - i,
{
    if i < path.len() && path[i] != 0x2f {
        lemma_next_slash(path, i + 1);
    }
}

/// Following the components of `path` from `start` on, down from
/// `current`, at `depth` components so far.
pub open spec fn resolve_from(ns: Seq<ObjectRecord>, path: Seq<u8>, start: int, current: ObjectId, depth: int) -> Result<
    ObjectId,
    NamespaceError,
>
    decreases path.len() + 1 - start,
{
    if start < 1 || start >= path.len() {
        Ok(current)
    } else {
        let end = next_slash(path, start);
        let component = path.subrange(start, end);
        if component.len() == 0 || depth + 1 > MAX_PATH_DEPTH {
            Err(NamespaceError::InvalidPath)
        } else {
            proof {
                lemma_next_slash(path, start);
            }
            match find_child_out(ns, current, component) {
                Err(e) => Err(e),
                Ok(None) => Err(NamespaceError::NotFound),
                Ok(Some(child)) => resolve_from(ns, path, end + 1, child, depth + 1),
            }
        }
    }
}

/// The object an absolute path names: `/` is the root, and each
/// component is a child of the one before, at most `MAX_PATH_DEPTH` of
/// them.
pub open spec fn resolve_path_out(ns: Seq<ObjectRecord>, path: Seq<u8>) -> Result<ObjectId, NamespaceError> {
    if path == seq![0x2fu8] {
        Ok(root_id())
    } else if path.len() == 0 || path[0] != 0x2f {
        Err(NamespaceError::InvalidPath)
    } else {
        resolve_from(ns, path, 1, root_id(), 0)
    }
}

/// The last slash of `path` at or before `i`.
pub open spec fn last_slash(path: Seq<u8>, i: int) -> int
    decreases i + 1,
{
    if i < 0 {
        -1
    } else if path[i] == 0x2f {
        i
    } else {
        last_slash(path, i - 1)
    }
}

/// The directory a path's last component would live in, and that
/// component.
pub open spec fn parent_and_name_out(ns: Seq<ObjectRecord>, path: Seq<u8>) -> Result<(ObjectId, Seq<u8>), NamespaceError> {
    if path.len() == 0 || path[0] != 0x2f || path == seq![0x2fu8] {
        Err(NamespaceError::InvalidPath)
    } else {
        let slash = last_slash(path, path.len() - 1);
        let name = path.subrange(slash + 1, path.len() as int);
        if name.len() == 0 {
            Err(NamespaceError::InvalidPath)
        } else {
            let parent_path = if slash == 0 {
                seq![0x2fu8]
            } else {
                path.subrange(0, slash)
            };
            match resolve_path_out(ns, parent_path) {
                Err(e) => Err(e),
                Ok(parent) => Ok((parent, name)),
            }
        }
    }
}

/// The live children of `parent` among slots `i` on, in slot order.
pub open spec fn children_from(ns: Seq<ObjectRecord>, parent: ObjectId, i: int) -> Seq<ObjectId>
    decreases ns.len() - i,
{
    if i < 0 || i >= ns.len() {
        Seq::empty()
    } else if ns[i].alive && ns[i].parent == parent {
        seq![id_at(ns, i)] + children_from(ns, parent, i + 1)
    } else {
        children_from(ns, parent, i + 1)
    }
}

/// What `stat` gives: `Stale` for an identifier that names nothing live,
/// else the object's identifier, parent, kind, length and name.
pub open spec fn stat_result(ns: Seq<ObjectRecord>, id: ObjectId, r: Result<ObjectInfo, NamespaceError>) -> bool {
    &&& !live_id(ns, id) ==> r == Err::<ObjectInfo, NamespaceError>(NamespaceError::Stale)
    &&& live_id(ns, id) ==> (r matches Ok(info) && {
        let record = ns[id.slot as int];
        &&& info.id == id
        &&& info.parent == record.parent
        &&& info.kind == record.kind
        &&& info.length == record.length
        &&& info.name_length == record.name_length
        &&& info.name@.take(record.name_length as int) == record_name(record)
        &&& forall|i: int| record.name_length <= i < MAX_COMPONENT_BYTES ==> #[trigger] info.name@[i] == 0
    })
}

/// What `read` gives and leaves in the output buffer.
pub open spec fn read_result(
    ns: Seq<ObjectRecord>,
    id: ObjectId,
    offset: int,
    before: Seq<u8>,
    after: Seq<u8>,
    r: Result<usize, NamespaceError>,
) -> bool {
    let record = ns[id.slot as int];
    if !live_id(ns, id) {
        r == Err::<usize, NamespaceError>(NamespaceError::Stale) && after == before
    } else if record.kind != ObjectKind::File {
        r == Err::<usize, NamespaceError>(NamespaceError::IsDirectory) && after == before
    } else if record.extent_count != 0 {
        r == Err::<usize, NamespaceError>(NamespaceError::Unsupported) && after == before
    } else if offset > record.length {
        r == Err::<usize, NamespaceError>(NamespaceError::TooLarge) && after == before
    } else {
        let n = if before.len() < record.length - offset {
            before.len() as int
        } else {
            record.length - offset
        };
        &&& r == Ok::<usize, NamespaceError>(n as usize)
        &&& after == record.data@.subrange(offset, offset + n) + before.skip(n)
    }
}

/// What `list` gives: the live children of a live directory in slot
/// order.
pub open spec fn list_result(ns: Seq<ObjectRecord>, parent: ObjectId, r: Result<ObjectList, NamespaceError>) -> bool {
    &&& !live_id(ns, parent) ==> r == Err::<ObjectList, NamespaceError>(NamespaceError::Stale)
    &&& live_id(ns, parent) && ns[parent.slot as int].kind != ObjectKind::Directory ==> r == Err::<
        ObjectList,
        NamespaceError,
    >(NamespaceError::NotDirectory)
    &&& live_id(ns, parent) && ns[parent.slot as int].kind == ObjectKind::Directory ==> (r matches Ok(list) && {
        let children = children_from(ns, parent, 0);
        &&& list.count() == children.len()
        &&& forall|k: int| 0 <= k < children.len() ==> #[trigger] list.ids()[k] == Some(children[k])
        &&& forall|k: int| children.len() <= k < MAX_OBJECTS ==> #[trigger] list.ids()[k] is None
    })
}

/// What asking for a file's extents gives: `Stale` for an identifier
/// that names nothing live; the extents in use and their count; or
/// `InvalidRecord` where the record's count and its extents disagree.
pub open spec fn extents_result(
    ns: Seq<ObjectRecord>,
    id: ObjectId,
    r: Result<([CowExtent; MAX_FILE_EXTENTS], usize), NamespaceError>,
) -> bool {
    let record = ns[id.slot as int];
    let count = record.extent_count as int;
    if !live_id(ns, id) {
        r == Err::<([CowExtent; MAX_FILE_EXTENTS], usize), NamespaceError>(NamespaceError::Stale)
    } else if count > MAX_FILE_EXTENTS {
        r == Err::<([CowExtent; MAX_FILE_EXTENTS], usize), NamespaceError>(NamespaceError::InvalidRecord)
    } else if count == 0 {
        r matches Ok((extents, n)) && n == 0 && forall|i: int|
            0 <= i < MAX_FILE_EXTENTS ==> #[trigger] extents@[i] == (CowExtent { start: 0, blocks: 0 })
    } else if exists|i: int| 0 <= i < MAX_FILE_EXTENTS && ((i < count) == (#[trigger] record.extents@[i].blocks == 0)) {
        r == Err::<([CowExtent; MAX_FILE_EXTENTS], usize), NamespaceError>(NamespaceError::InvalidRecord)
    } else {
        r == Ok::<([CowExtent; MAX_FILE_EXTENTS], usize), NamespaceError>((record.extents, count as usize))
    }
}

/// The blocks of all the extents.
pub open spec fn extent_blocks(extents: Seq<CowExtent>) -> int
    decreases extents.len(),
{
    if extents.len() == 0 {
        0
    } else {
        extent_blocks(extents.drop_last()) + extents.last().blocks
    }
}

proof fn lemma_extent_blocks_step(extents: Seq<CowExtent>, i: int)
    requires
        0 <= i < extents.len(),
    ensures
        extent_blocks(extents.take(i + 1)) == extent_blocks(extents.take(i)) + extents[i].blocks,
{
    assert(extents.take(i + 1).drop_last() =~= extents.take(i));
}

/// The table holds `MAX_OBJECTS` slots, the root directory lives in
/// slot 0 under generation 1, names fit their field, and a file without
/// extents fits its inline data.
pub open spec fn namespace_wf(ns: Seq<ObjectRecord>) -> bool {
    &&& ns.len() == MAX_OBJECTS
    &&& ns[0].alive
    &&& ns[0].generation == 1
    &&& ns[0].kind == ObjectKind::Directory
    &&& forall|i: int|
        0 <= i < MAX_OBJECTS ==> (#[trigger] ns[i]).name_length <= MAX_COMPONENT_BYTES && (ns[i].extent_count == 0
            ==> ns[i].length <= MAX_FILE_BYTES)
}

/// An empty slot.
pub open spec fn empty_record(r: ObjectRecord) -> bool {
    &&& r.generation == 0
    &&& r.parent == ObjectId { slot: u16::MAX, generation: 1 }
    &&& r.kind == ObjectKind::File
    &&& !r.alive
    &&& r.name_length == 0
    &&& r.length == 0
    &&& r.extent_count == 0
}

/// A table with only the root directory.
pub open spec fn fresh_namespace(ns: Seq<ObjectRecord>) -> bool {
    &&& namespace_wf(ns)
    &&& ns[0].parent == ObjectId { slot: u16::MAX, generation: 1 }
    &&& ns[0].name_length == 0
    &&& forall|i: int| 1 <= i < MAX_OBJECTS ==> empty_record(#[trigger] ns[i])
}

fn empty_object_record(kind: ObjectKind, alive: bool, generation: u32) -> (r: ObjectRecord)
    ensures
        r.generation == generation,
        r.parent == (ObjectId { slot: u16::MAX, generation: 1 }),
        r.kind == kind,
        r.alive == alive,
        r.name_length == 0,
        r.length == 0,
        r.extent_count == 0,
        forall|i: int| 0 <= i < MAX_COMPONENT_BYTES ==> #[trigger] r.name@[i] == 0,
        forall|i: int| 0 <= i < MAX_FILE_EXTENTS ==> #[trigger] r.extents@[i] == (CowExtent { start: 0, blocks: 0 }),
        forall|i: int| 0 <= i < MAX_FILE_BYTES ==> #[trigger] r.data@[i] == 0,
{
    ObjectRecord {
        generation,
        parent: ObjectId { slot: u16::MAX, generation: 1 },
        kind,
        alive,
        name_length: 0,
        name: [0u8; MAX_COMPONENT_BYTES],
        length: 0,
        extent_count: 0,
        extents: [CowExtent { start: 0, blocks: 0 }; MAX_FILE_EXTENTS],
        data: [0u8; MAX_FILE_BYTES],
    }
}

impl ObjectNamespace {
    pub closed spec fn view(&self) -> Seq<ObjectRecord> {
        self.records@
    }

    pub open spec fn wf(&self) -> bool {
        namespace_wf(self@)
    }

    /// A namespace holding only the root directory.
    pub fn new() -> (r: Self)
        ensures
            r.wf(),
            fresh_namespace(r@),
    {
        let empty = empty_object_record(ObjectKind::File, false, 0);
        let mut records = [empty; MAX_OBJECTS];
        records[0] = empty_object_record(ObjectKind::Directory, true, 1);
        ObjectNamespace { records }
    }

    /// The table made of `records`, slot by slot.
    pub(crate) fn from_records(records: [ObjectRecord; MAX_OBJECTS]) -> (r: Self)
        ensures
            r@ == records@,
    {
        ObjectNamespace { records }
    }

    /// The record in slot `slot`.
    pub(crate) fn record_at(&self, slot: usize) -> (r: &ObjectRecord)
        requires
            slot < MAX_OBJECTS,
        ensures
            self@.len() == MAX_OBJECTS,
            *r == self@[slot as int],
    {
        &self.records[slot]
    }

    pub fn root(&self) -> (r: ObjectId)
        ensures
            r == root_id(),
    {
        ObjectId { slot: 0, generation: 1 }
    }

    /// The slot that `id` names while its object lives; `Stale` otherwise.
    pub(crate) fn object_slot(&self, id: ObjectId) -> (r: Result<usize, NamespaceError>)
        requires
            self.wf(),
        ensures
            match r {
                Ok(slot) => live_id(self@, id) && slot == id.slot,
                Err(e) => !live_id(self@, id) && e == NamespaceError::Stale,
            },
    {
        let slot = id.slot as usize;
        if slot >= MAX_OBJECTS {
            return Err(NamespaceError::Stale);
        }
        if !self.records[slot].alive || self.records[slot].generation != id.generation {
            return Err(NamespaceError::Stale);
        }
        Ok(slot)
    }

    /// A name for one path component.
    pub(crate) fn validate_name(name: &[u8]) -> (r: Result<(), NamespaceError>)
        ensures
            r == (if component_valid(name@) {
                Ok::<(), NamespaceError>(())
            } else {
                Err(NamespaceError::InvalidName)
            }),
    {
        if name.len() == 0 || name.len() > MAX_COMPONENT_BYTES {
            return Err(NamespaceError::InvalidName);
        }
        let mut i: usize = 0;
        while i < name.len()
            invariant
                i <= name@.len(),
                forall|j: int| 0 <= j < i ==> #[trigger] name@[j] != 0 && name@[j] != 0x2f,
            decreases name@.len() - i,
        {
            if name[i] == 0 || name[i] == 0x2f {
                return Err(NamespaceError::InvalidName);
            }
            i += 1;
        }
        Ok(())
    }

    /// Whether slot `slot` holds a live child of `parent` named `name`.
    fn child_matches(&self, slot: usize, parent: ObjectId, name: &[u8]) -> (r: bool)
        requires
            self.wf(),
            slot < MAX_OBJECTS,
        ensures
            r == child_at(self@, parent, name@, slot as int),
    {
        let record = &self.records[slot];
        if !record.alive || record.parent != parent || record.name_length as usize != name.len() {
            return false;
        }
        let mut i: usize = 0;
        while i < name.len()
            invariant
                i <= name@.len(),
                slot < MAX_OBJECTS,
                *record == self@[slot as int],
                record.alive && record.parent == parent,
                name@.len() == record.name_length,
                record.name_length <= MAX_COMPONENT_BYTES,
                forall|j: int| 0 <= j < i ==> #[trigger] record.name@[j] == name@[j],
            decreases name@.len() - i,
        {
            if record.name[i] != name[i] {
                assert(record_name(*record)[i as int] != name@[i as int]);
                return false;
            }
            i += 1;
        }
        assert(record_name(*record) =~= name@);
        true
    }

    pub(crate) fn find_child(&self, parent: ObjectId, name: &[u8]) -> (r: Result<Option<ObjectId>, NamespaceError>)
        requires
            self.wf(),
        ensures
            r == find_child_out(self@, parent, name@),
    {
        match self.object_slot(parent) {
            Err(e) => return Err(e),
            Ok(_) => {},
        }
        let mut slot: usize = 0;
        while slot < MAX_OBJECTS
            invariant
                self.wf(),
                live_id(self@, parent),
                slot <= MAX_OBJECTS,
                first_child(self@, parent, name@, 0) == first_child(self@, parent, name@, slot as int),
            decreases MAX_OBJECTS - slot,
        {
            if self.child_matches(slot, parent, name) {
                return Ok(Some(ObjectId { slot: slot as u16, generation: self.records[slot].generation }));
            }
            slot += 1;
        }
        Ok(None)
    }

    /// The name field holding `name` and zeros after it.
    fn name_array(name: &[u8]) -> (r: [u8; MAX_COMPONENT_BYTES])
        requires
            name@.len() <= MAX_COMPONENT_BYTES,
        ensures
            r@.take(name@.len() as int) == name@,
            forall|i: int| name@.len() <= i < MAX_COMPONENT_BYTES ==> #[trigger] r@[i] == 0,
    {
        let mut r = [0u8; MAX_COMPONENT_BYTES];
        let mut i: usize = 0;
        while i < name.len()
            invariant
                i <= name@.len(),
                name@.len() <= MAX_COMPONENT_BYTES,
                forall|j: int| 0 <= j < i ==> #[trigger] r@[j] == name@[j],
                forall|j: int| i <= j < MAX_COMPONENT_BYTES ==> #[trigger] r@[j] == 0,
            decreases name@.len() - i,
        {
            r[i] = name[i];
            i += 1;
        }
        assert(r@.take(name@.len() as int) =~= name@);
        r
    }

    /// Replay a create record: the object it names comes to life in its
    /// free slot under a newer generation.
    fn apply_create(&mut self, payload: &[u8]) -> (r: Result<(), NamespaceError>)
        requires
            old(self).wf(),
        ensures
            final(self).wf(),
            create_result(old(self)@, final(self)@, payload@, r),
    {
        if payload.len() != CREATE_RECORD_BYTES {
            return Err(NamespaceError::InvalidRecord);
        }
        let slot = get_u16(payload, 0);
        let generation = get_u32(payload, 2);
        let parent_slot = get_u16(payload, 6);
        let parent_generation = get_u32(payload, 8);
        if generation == 0 || parent_generation == 0 {
            return Err(NamespaceError::InvalidRecord);
        }
        let kind = match payload[12] {
            1 => ObjectKind::File,
            2 => ObjectKind::Directory,
            _ => return Err(NamespaceError::InvalidRecord),
        };
        let name_length = get_u16(payload, 13) as usize;
        if name_length == 0 || name_length > MAX_COMPONENT_BYTES {
            return Err(NamespaceError::InvalidRecord);
        }
        let name = vstd::slice::slice_subrange(payload, 15, 15 + name_length);
        match Self::validate_name(name) {
            Err(e) => return Err(e),
            Ok(()) => {},
        }
        let parent = ObjectId { slot: parent_slot, generation: parent_generation };
        let parent_index = match self.object_slot(parent) {
            Err(e) => return Err(e),
            Ok(index) => index,
        };
        if self.records[parent_index].kind != ObjectKind::Directory {
            return Err(NamespaceError::NotDirectory);
        }
        match self.find_child(parent, name) {
            Err(e) => return Err(e),
            Ok(Some(_)) => return Err(NamespaceError::AlreadyExists),
            Ok(None) => {},
        }
        let index = slot as usize;
        if index >= MAX_OBJECTS || self.records[index].alive || self.records[index].generation >= generation {
            return Err(NamespaceError::InvalidRecord);
        }
        let mut record = empty_object_record(kind, true, generation);
        record.parent = parent;
        record.name_length = name_length as u16;
        record.name = Self::name_array(name);
        self.records[index] = record;
        assert(record_name(self@[index as int]) =~= name@);
        Ok(())
    }

    /// Whether `object` lies on the way from `parent` up to the root.
    fn is_descendant(&self, object: ObjectId, parent: ObjectId) -> (r: Result<bool, NamespaceError>)
        requires
            self.wf(),
        ensures
            r == walk_up(self@, object, parent, (MAX_OBJECTS + 1) as nat),
    {
        let mut current = parent;
        let mut step: usize = 0;
        while step <= MAX_OBJECTS
            invariant
                self.wf(),
                step <= MAX_OBJECTS + 1,
                walk_up(self@, object, parent, (MAX_OBJECTS + 1) as nat) == walk_up(
                    self@,
                    object,
                    current,
                    (MAX_OBJECTS + 1 - step) as nat,
                ),
            decreases MAX_OBJECTS + 1 - step,
        {
            if current == object {
                return Ok(true);
            }
            if current.slot == 0 && current.generation == 1 {
                return Ok(false);
            }
            let slot = match self.object_slot(current) {
                Err(e) => return Err(e),
                Ok(slot) => slot,
            };
            current = self.records[slot].parent;
            step += 1;
        }
        Err(NamespaceError::InvalidRecord)
    }

    /// Replay a rename record: the object moves to its new parent under
    /// its new name.
    fn apply_rename(&mut self, payload: &[u8]) -> (r: Result<(), NamespaceError>)
        requires
            old(self).wf(),
        ensures
            final(self).wf(),
            rename_result(old(self)@, final(self)@, payload@, r),
    {
        if payload.len() != RENAME_RECORD_BYTES {
            return Err(NamespaceError::InvalidRecord);
        }
        let id_generation = get_u32(payload, 2);
        if id_generation == 0 {
            return Err(NamespaceError::InvalidRecord);
        }
        let id = ObjectId { slot: get_u16(payload, 0), generation: id_generation };
        if id.slot == 0 && id.generation == 1 {
            return Err(NamespaceError::Root);
        }
        let parent_generation = get_u32(payload, 8);
        if parent_generation == 0 {
            return Err(NamespaceError::InvalidRecord);
        }
        let parent = ObjectId { slot: get_u16(payload, 6), generation: parent_generation };
        let name_length = get_u16(payload, 12) as usize;
        if name_length == 0 || name_length > MAX_COMPONENT_BYTES {
            return Err(NamespaceError::InvalidRecord);
        }
        let name = vstd::slice::slice_subrange(payload, 14, 14 + name_length);
        match Self::validate_name(name) {
            Err(e) => return Err(e),
            Ok(()) => {},
        }
        let parent_index = match self.object_slot(parent) {
            Err(e) => return Err(e),
            Ok(index) => index,
        };
        if self.records[parent_index].kind != ObjectKind::Directory {
            return Err(NamespaceError::NotDirectory);
        }
        match self.find_child(parent, name) {
            Err(e) => return Err(e),
            Ok(Some(child)) => {
                if child != id {
                    return Err(NamespaceError::AlreadyExists);
                }
            },
            Ok(None) => {},
        }
        match self.is_descendant(id, parent) {
            Err(e) => return Err(e),
            Ok(true) => return Err(NamespaceError::InvalidPath),
            Ok(false) => {},
        }
        let index = match self.object_slot(id) {
            Err(e) => return Err(e),
            Ok(index) => index,
        };
        let mut record = self.records[index];
        record.parent = parent;
        record.name_length = name_length as u16;
        record.name = Self::name_array(name);
        self.records[index] = record;
        assert(record_name(self@[index as int]) =~= name@);
        Ok(())
    }

    /// Whether some live object has `id` for its parent.
    fn any_child(&self, id: ObjectId) -> (r: bool)
        requires
            self.wf(),
        ensures
            r == has_children(self@, id),
    {
        let mut j: usize = 0;
        while j < MAX_OBJECTS
            invariant
                self.wf(),
                j <= MAX_OBJECTS,
                forall|k: int| 0 <= k < j ==> !(#[trigger] self@[k].alive && self@[k].parent == id),
            decreases MAX_OBJECTS - j,
        {
            if self.records[j].alive && self.records[j].parent == id {
                return true;
            }
            j += 1;
        }
        false
    }

    /// Replay an unlink record: the object's slot is freed; its generation
    /// stays, so the old identifier goes stale.
    fn apply_unlink(&mut self, payload: &[u8]) -> (r: Result<(), NamespaceError>)
        requires
            old(self).wf(),
        ensures
            final(self).wf(),
            unlink_result(old(self)@, final(self)@, payload@, r),
    {
        if payload.len() != 6 {
            return Err(NamespaceError::InvalidRecord);
        }
        let generation = get_u32(payload, 2);
        if generation == 0 {
            return Err(NamespaceError::InvalidRecord);
        }
        let id = ObjectId { slot: get_u16(payload, 0), generation };
        if id.slot == 0 && id.generation == 1 {
            return Err(NamespaceError::Root);
        }
        let index = match self.object_slot(id) {
            Err(e) => return Err(e),
            Ok(index) => index,
        };
        if self.records[index].kind == ObjectKind::Directory && self.any_child(id) {
            return Err(NamespaceError::NotEmpty);
        }
        let mut record = self.records[index];
        record.alive = false;
        self.records[index] = record;
        Ok(())
    }

    /// Replay a write record into a file held inline.
    fn apply_write(&mut self, payload: &[u8]) -> (r: Result<(), NamespaceError>)
        requires
            old(self).wf(),
        ensures
            final(self).wf(),
            write_result(old(self)@, final(self)@, payload@, r),
    {
        if payload.len() < WRITE_HEADER_BYTES {
            return Err(NamespaceError::InvalidRecord);
        }
        let generation = get_u32(payload, 2);
        if generation == 0 {
            return Err(NamespaceError::InvalidRecord);
        }
        let id = ObjectId { slot: get_u16(payload, 0), generation };
        let offset = get_u32(payload, 6) as usize;
        let length = get_u16(payload, 10) as usize;
        if length != payload.len() - WRITE_HEADER_BYTES || offset > MAX_FILE_BYTES || MAX_FILE_BYTES - offset < length {
            return Err(NamespaceError::InvalidRecord);
        }
        let index = match self.object_slot(id) {
            Err(e) => return Err(e),
            Ok(index) => index,
        };
        if self.records[index].kind != ObjectKind::File {
            return Err(NamespaceError::IsDirectory);
        }
        if self.records[index].extent_count != 0 {
            return Err(NamespaceError::Unsupported);
        }
        let mut record = self.records[index];
        let ghost before = record;
        let mut i: usize = 0;
        while i < length
            invariant
                i <= length,
                offset + length <= MAX_FILE_BYTES,
                length == payload@.len() - WRITE_HEADER_BYTES,
                record == (ObjectRecord { data: record.data, ..before }),
                forall|j: int|
                    0 <= j < MAX_FILE_BYTES ==> #[trigger] record.data@[j] == if offset <= j < offset + i {
                        payload@[WRITE_HEADER_BYTES + j - offset]
                    } else {
                        before.data@[j]
                    },
            decreases length - i,
        {
            record.data[offset + i] = payload[WRITE_HEADER_BYTES + i];
            i += 1;
        }
        let end = (offset + length) as u32;
        if record.length < end {
            record.length = end;
        }
        self.records[index] = record;
        Ok(())
    }

    /// Replay a truncate record: the file keeps its first `length` bytes
    /// and the rest of its inline data is zeroed.
    fn apply_truncate(&mut self, payload: &[u8]) -> (r: Result<(), NamespaceError>)
        requires
            old(self).wf(),
        ensures
            final(self).wf(),
            truncate_result(old(self)@, final(self)@, payload@, r),
    {
        if payload.len() != 10 {
            return Err(NamespaceError::InvalidRecord);
        }
        let generation = get_u32(payload, 2);
        let length = get_u32(payload, 6) as usize;
        if generation == 0 || length > MAX_FILE_BYTES {
            return Err(NamespaceError::InvalidRecord);
        }
        let id = ObjectId { slot: get_u16(payload, 0), generation };
        let index = match self.object_slot(id) {
            Err(e) => return Err(e),
            Ok(index) => index,
        };
        if self.records[index].kind != ObjectKind::File {
            return Err(NamespaceError::IsDirectory);
        }
        if self.records[index].extent_count != 0 {
            return Err(NamespaceError::Unsupported);
        }
        let mut record = self.records[index];
        let ghost before = record;
        let mut i: usize = length;
        while i < MAX_FILE_BYTES
            invariant
                length <= i <= MAX_FILE_BYTES,
                record == (ObjectRecord { data: record.data, ..before }),
                forall|j: int|
                    0 <= j < MAX_FILE_BYTES ==> #[trigger] record.data@[j] == if length <= j < i {
                        0
                    } else {
                        before.data@[j]
                    },
            decreases MAX_FILE_BYTES - i,
        {
            record.data[i] = 0;
            i += 1;
        }
        record.length = length as u32;
        self.records[index] = record;
        Ok(())
    }

    /// Replay one journal record of `kind`.
    pub fn apply_record(&mut self, kind: u16, payload: &[u8]) -> (r: Result<(), NamespaceError>)
        requires
            old(self).wf(),
        ensures
            final(self).wf(),
            record_result(old(self)@, final(self)@, kind, payload@, r),
    {
        if kind == CREATE_KIND {
            self.apply_create(payload)
        } else if kind == RENAME_KIND {
            self.apply_rename(payload)
        } else if kind == UNLINK_KIND {
            self.apply_unlink(payload)
        } else if kind == WRITE_KIND {
            self.apply_write(payload)
        } else if kind == TRUNCATE_KIND {
            self.apply_truncate(payload)
        } else {
            Err(NamespaceError::InvalidRecord)
        }
    }

    /// The first slash of `path` at or after `start`, or its length.
    fn next_slash(path: &[u8], start: usize) -> (r: usize)
        requires
            start <= path@.len(),
        ensures
            r == next_slash(path@, start as int),
    {
        let mut i = start;
        while i < path.len() && path[i] != 0x2f
            invariant
                start <= i <= path@.len(),
                next_slash(path@, start as int) == next_slash(path@, i as int),
            decreases path@.len() - i,
        {
            i += 1;
        }
        i
    }

    /// The object an absolute path names.
    pub fn resolve_path(&self, path: &[u8]) -> (r: Result<ObjectId, NamespaceError>)
        requires
            self.wf(),
        ensures
            r == resolve_path_out(self@, path@),
    {
        if path.len() == 1 && path[0] == 0x2f {
            assert(path@ =~= seq![0x2fu8]);
            return Ok(ObjectId { slot: 0, generation: 1 });
        }
        assert(path@ != seq![0x2fu8]) by {
            if path@ == seq![0x2fu8] {
                assert(path@.len() == 1 && path@[0] == 0x2f);
            }
        }
        if path.len() == 0 || path[0] != 0x2f {
            return Err(NamespaceError::InvalidPath);
        }
        let mut current = ObjectId { slot: 0, generation: 1 };
        let mut depth: usize = 0;
        let mut start: usize = 1;
        while start < path.len()
            invariant
                self.wf(),
                1 <= start <= path@.len(),
                depth <= MAX_PATH_DEPTH,
                resolve_path_out(self@, path@) == resolve_from(self@, path@, start as int, current, depth as int),
            decreases path@.len() + 1 - start,
        {
            let end = Self::next_slash(path, start);
            proof {
                lemma_next_slash(path@, start as int);
            }
            if end == start {
                return Err(NamespaceError::InvalidPath);
            }
            if depth + 1 > MAX_PATH_DEPTH {
                return Err(NamespaceError::InvalidPath);
            }
            depth += 1;
            let component = vstd::slice::slice_subrange(path, start, end);
            current = match self.find_child(current, component) {
                Err(e) => return Err(e),
                Ok(None) => return Err(NamespaceError::NotFound),
                Ok(Some(child)) => child,
            };
            let ghost next = end + 1;
            start = if end >= path.len() {
                path.len()
            } else {
                end + 1
            };
            proof {
                if end >= path.len() {
                    assert(resolve_from(self@, path@, next, current, depth as int) == Ok::<ObjectId, NamespaceError>(current));
                    assert(resolve_from(self@, path@, start as int, current, depth as int) == Ok::<ObjectId, NamespaceError>(current));
                }
            }
        }
        Ok(current)
    }

    /// The directory a path's last component lives in, and that component.
    pub(crate) fn parent_and_name<'a>(&self, path: &'a [u8]) -> (r: Result<(ObjectId, &'a [u8]), NamespaceError>)
        requires
            self.wf(),
        ensures
            match r {
                Ok((parent, name)) => parent_and_name_out(self@, path@) == Ok::<(ObjectId, Seq<u8>), NamespaceError>(
                    (parent, name@),
                ),
                Err(e) => parent_and_name_out(self@, path@) == Err::<(ObjectId, Seq<u8>), NamespaceError>(e),
            },
    {
        if path.len() == 0 || path[0] != 0x2f || path.len() == 1 {
            proof {
                if path@.len() == 1 && path@[0] == 0x2f {
                    assert(path@ =~= seq![0x2fu8]);
                }
            }
            return Err(NamespaceError::InvalidPath);
        }
        assert(path@ != seq![0x2fu8]) by {
            if path@ == seq![0x2fu8] {
                assert(path@.len() == 1);
            }
        }
        let mut slash = path.len() - 1;
        while path[slash] != 0x2f
            invariant
                0 < path@.len(),
                path@[0] == 0x2f,
                slash < path@.len(),
                last_slash(path@, path@.len() - 1) == last_slash(path@, slash as int),
            decreases slash,
        {
            slash -= 1;
        }
        let name = vstd::slice::slice_subrange(path, slash + 1, path.len());
        if name.len() == 0 {
            return Err(NamespaceError::InvalidPath);
        }
        let parent = if slash == 0 {
            let root_path: [u8; 1] = [0x2f];
            assert(root_path@ =~= seq![0x2fu8]);
            self.resolve_path(&root_path)
        } else {
            self.resolve_path(vstd::slice::slice_subrange(path, 0, slash))
        };
        match parent {
            Err(e) => Err(e),
            Ok(parent) => Ok((parent, name)),
        }
    }

    /// What an object is: its identifier, parent, kind, length and name.
    pub fn stat(&self, id: ObjectId) -> (r: Result<ObjectInfo, NamespaceError>)
        requires
            self.wf(),
        ensures
            stat_result(self@, id, r),
    {
        let index = match self.object_slot(id) {
            Err(e) => return Err(e),
            Ok(index) => index,
        };
        let record = &self.records[index];
        let name = Self::name_array(vstd::slice::slice_subrange(&record.name, 0, record.name_length as usize));
        Ok(ObjectInfo {
            id,
            parent: record.parent,
            kind: record.kind,
            length: record.length,
            name,
            name_length: record.name_length,
        })
    }

    /// Copy a file's bytes from `offset` into `output`, as many as fit and
    /// the file holds; their count.
    pub fn read(&self, id: ObjectId, offset: usize, output: &mut [u8]) -> (r: Result<usize, NamespaceError>)
        requires
            self.wf(),
        ensures
            read_result(self@, id, offset as int, old(output)@, final(output)@, r),
    {
        let index = match self.object_slot(id) {
            Err(e) => return Err(e),
            Ok(index) => index,
        };
        let record = &self.records[index];
        if record.kind != ObjectKind::File {
            return Err(NamespaceError::IsDirectory);
        }
        if record.extent_count != 0 {
            return Err(NamespaceError::Unsupported);
        }
        if offset > record.length as usize {
            return Err(NamespaceError::TooLarge);
        }
        let available = record.length as usize - offset;
        let length = if output.len() < available {
            output.len()
        } else {
            available
        };
        let mut i: usize = 0;
        while i < length
            invariant
                i <= length,
                length <= output@.len(),
                offset + length <= record.length <= MAX_FILE_BYTES,
                output@.len() == old(output)@.len(),
                forall|j: int| 0 <= j < i ==> #[trigger] output@[j] == record.data@[offset + j],
                forall|j: int| i <= j < output@.len() ==> #[trigger] output@[j] == old(output)@[j],
            decreases length - i,
        {
            output[i] = record.data[offset + i];
            i += 1;
        }
        assert(output@ =~= record.data@.subrange(offset as int, offset + length) + old(output)@.skip(length as int));
        Ok(length)
    }

    /// The extents of a file kept in blocks: the first `count` are in use,
    /// the rest are empty; `InvalidRecord` when the record says otherwise.
    pub(crate) fn file_extents(&self, id: ObjectId) -> (r: Result<([CowExtent; MAX_FILE_EXTENTS], usize), NamespaceError>)
        requires
            self.wf(),
        ensures
            extents_result(self@, id, r),
    {
        let index = match self.object_slot(id) {
            Err(e) => return Err(e),
            Ok(index) => index,
        };
        let record = &self.records[index];
        let count = record.extent_count as usize;
        if count > MAX_FILE_EXTENTS {
            return Err(NamespaceError::InvalidRecord);
        }
        if count == 0 {
            return Ok(([CowExtent { start: 0, blocks: 0 }; MAX_FILE_EXTENTS], 0));
        }
        let mut i: usize = 0;
        while i < MAX_FILE_EXTENTS
            invariant
                i <= MAX_FILE_EXTENTS,
                self.wf(),
                live_id(self@, id),
                index == id.slot,
                *record == self@[index as int],
                1 <= count <= MAX_FILE_EXTENTS,
                count == record.extent_count,
                forall|j: int| 0 <= j < i ==> ((j < count) != (#[trigger] record.extents@[j].blocks == 0)),
            decreases MAX_FILE_EXTENTS - i,
        {
            if (i < count) == (record.extents[i].blocks == 0) {
                return Err(NamespaceError::InvalidRecord);
            }
            i += 1;
        }
        Ok((record.extents, count))
    }

    /// Move a file's data to the given extents: its inline data is cleared
    /// and its length set. Each extent must hold blocks, at most
    /// `MAX_FILE_EXTENTS` of them, and together hold `length`.
    fn set_file_extents(&mut self, id: ObjectId, extents: &[CowExtent], length: usize) -> (r: Result<(), NamespaceError>)
        requires
            old(self).wf(),
        ensures
            final(self).wf(),
            !live_id(old(self)@, id) ==> r == Err::<(), NamespaceError>(NamespaceError::Stale) && final(self)@ == old(self)@,
            live_id(old(self)@, id) ==> {
                let before = old(self)@[id.slot as int];
                if before.kind != ObjectKind::File || extents@.len() == 0 || extents@.len() > MAX_FILE_EXTENTS
                    || (exists|i: int| 0 <= i < extents@.len() && #[trigger] extents@[i].blocks == 0) || length
                    > extent_blocks(extents@) * BLOCK_BYTES {
                    r == Err::<(), NamespaceError>(NamespaceError::InvalidRecord) && final(self)@ == old(self)@
                } else {
                    let after = final(self)@[id.slot as int];
                    &&& r == Ok::<(), NamespaceError>(())
                    &&& only_slot_changed(old(self)@, final(self)@, id.slot as int)
                    &&& after == ObjectRecord {
                        length: #[verifier::truncate] (length as u32),
                        extent_count: extents@.len() as u8,
                        extents: after.extents,
                        data: after.data,
                        ..before
                    }
                    &&& after.extents@.take(extents@.len() as int) == extents@
                    &&& forall|i: int|
                        extents@.len() <= i < MAX_FILE_EXTENTS ==> #[trigger] after.extents@[i] == (CowExtent {
                            start: 0,
                            blocks: 0,
                        })
                    &&& forall|i: int| 0 <= i < MAX_FILE_BYTES ==> #[trigger] after.data@[i] == 0
                }
            },
    {
        let index = match self.object_slot(id) {
            Err(e) => return Err(e),
            Ok(index) => index,
        };
        if self.records[index].kind != ObjectKind::File || extents.len() == 0 || extents.len() > MAX_FILE_EXTENTS {
            return Err(NamespaceError::InvalidRecord);
        }
        let mut total: u64 = 0;
        let mut i: usize = 0;
        while i < extents.len()
            invariant
                i <= extents@.len() <= MAX_FILE_EXTENTS,
                0 < extents@.len(),
                self.wf(),
                self@ == old(self)@,
                live_id(self@, id),
                index == id.slot,
                self@[index as int].kind == ObjectKind::File,
                total == extent_blocks(extents@.take(i as int)),
                total <= i * 0xffff_ffff,
                forall|j: int| 0 <= j < i ==> #[trigger] extents@[j].blocks != 0,
            decreases extents@.len() - i,
        {
            if extents[i].blocks == 0 {
                return Err(NamespaceError::InvalidRecord);
            }
            proof {
                lemma_extent_blocks_step(extents@, i as int);
            }
            total = total + extents[i].blocks as u64;
            i += 1;
        }
        assert(extents@.take(extents@.len() as int) =~= extents@);
        if length as u64 > total * 4096 {
            return Err(NamespaceError::InvalidRecord);
        }
        let mut record = self.records[index];
        record.length = #[verifier::truncate] (length as u32);
        record.extent_count = extents.len() as u8;
        let mut new_extents = [CowExtent { start: 0, blocks: 0 }; MAX_FILE_EXTENTS];
        let mut k: usize = 0;
        while k < extents.len()
            invariant
                k <= extents@.len() <= MAX_FILE_EXTENTS,
                forall|j: int| 0 <= j < k ==> #[trigger] new_extents@[j] == extents@[j],
                forall|j: int| k <= j < MAX_FILE_EXTENTS ==> #[trigger] new_extents@[j] == (CowExtent { start: 0, blocks: 0 }),
            decreases extents@.len() - k,
        {
            new_extents[k] = extents[k];
            k += 1;
        }
        assert(new_extents@.take(extents@.len() as int) =~= extents@);
        record.extents = new_extents;
        record.data = [0u8; MAX_FILE_BYTES];
        self.records[index] = record;
        Ok(())
    }

    /// The live children of a directory, in slot order.
    pub fn list(&self, parent: ObjectId) -> (r: Result<ObjectList, NamespaceError>)
        requires
            self.wf(),
        ensures
            list_result(self@, parent, r),
    {
        let index = match self.object_slot(parent) {
            Err(e) => return Err(e),
            Ok(index) => index,
        };
        if self.records[index].kind != ObjectKind::Directory {
            return Err(NamespaceError::NotDirectory);
        }
        let mut ids = [None; MAX_OBJECTS];
        let mut count: usize = 0;
        let mut slot: usize = 0;
        while slot < MAX_OBJECTS
            invariant
                self.wf(),
                slot <= MAX_OBJECTS,
                count <= slot,
                children_from(self@, parent, 0) == children_from(self@, parent, 0).take(count as int)
                    + children_from(self@, parent, slot as int),
                children_from(self@, parent, 0).len() == count + children_from(self@, parent, slot as int).len(),
                forall|k: int| 0 <= k < count ==> #[trigger] ids@[k] == Some(children_from(self@, parent, 0)[k]),
                forall|k: int| count <= k < MAX_OBJECTS ==> #[trigger] ids@[k] is None,
            decreases MAX_OBJECTS - slot,
        {
            let ghost all = children_from(self@, parent, 0);
            if self.records[slot].alive && self.records[slot].parent == parent {
                let id = ObjectId { slot: slot as u16, generation: self.records[slot].generation };
                assert(children_from(self@, parent, slot as int) == seq![id] + children_from(self@, parent, slot + 1));
                assert(all[count as int] == id) by {
                    assert(all == all.take(count as int) + children_from(self@, parent, slot as int));
                }
                assert(all.take(count + 1) + children_from(self@, parent, slot + 1) =~= all) by {
                    assert(all == all.take(count as int) + children_from(self@, parent, slot as int));
                }
                ids[count] = Some(id);
                count += 1;
            }
            slot += 1;
        }
        Ok(ObjectList { ids, count })
    }

    /// Plan a new object named `name` in the directory `parent`: its
    /// identifier and the create record that makes it.
    pub fn plan_create(&self, parent: ObjectId, kind: ObjectKind, name: &[u8]) -> (r: Result<
        (ObjectId, [u8; CREATE_RECORD_BYTES]),
        NamespaceError,
    >)
        requires
            self.wf(),
        ensures
            match r {
                Ok((id, record)) => plan_create_out(self@, parent, kind, name@) == Ok::<ObjectId, NamespaceError>(id)
                    && create_record(record@, id, parent, kind, name@),
                Err(e) => plan_create_out(self@, parent, kind, name@) == Err::<ObjectId, NamespaceError>(e),
            },
    {
        let parent_slot = match self.object_slot(parent) {
            Err(e) => return Err(e),
            Ok(slot) => slot,
        };
        if self.records[parent_slot].kind != ObjectKind::Directory {
            return Err(NamespaceError::NotDirectory);
        }
        match Self::validate_name(name) {
            Err(e) => return Err(e),
            Ok(()) => {},
        }
        match self.find_child(parent, name) {
            Err(e) => return Err(e),
            Ok(Some(_)) => return Err(NamespaceError::AlreadyExists),
            Ok(None) => {},
        }
        let mut slot: usize = 0;
        while slot < MAX_OBJECTS && self.records[slot].alive
            invariant
                self.wf(),
                slot <= MAX_OBJECTS,
                first_dead(self@, 0) == first_dead(self@, slot as int),
            decreases MAX_OBJECTS - slot,
        {
            slot += 1;
        }
        if slot == MAX_OBJECTS {
            return Err(NamespaceError::Capacity);
        }
        let generation = self.records[slot].generation;
        if generation == u32::MAX {
            return Err(NamespaceError::GenerationExhausted);
        }
        let id = ObjectId { slot: slot as u16, generation: generation + 1 };
        let mut payload = [0u8; CREATE_RECORD_BYTES];
        put_u16(&mut payload, 0, id.slot);
        put_u32(&mut payload, 2, id.generation);
        put_u16(&mut payload, 6, parent.slot);
        put_u32(&mut payload, 8, parent.generation);
        let ghost after_ids = payload@;
        payload[12] = match kind {
            ObjectKind::File => 1u8,
            ObjectKind::Directory => 2u8,
        };
        put_u16(&mut payload, 13, name.len() as u16);
        let ghost before_name = payload@;
        let mut i: usize = 0;
        while i < name.len()
            invariant
                i <= name@.len(),
                name@.len() <= MAX_COMPONENT_BYTES,
                payload@.len() == CREATE_RECORD_BYTES,
                forall|j: int| 0 <= j < 15 ==> #[trigger] payload@[j] == before_name[j],
                forall|j: int| 15 <= j < 15 + i ==> #[trigger] payload@[j] == name@[j - 15],
                forall|j: int| 15 + i <= j < CREATE_RECORD_BYTES ==> #[trigger] payload@[j] == before_name[j],
            decreases name@.len() - i,
        {
            payload[15 + i] = name[i];
            i += 1;
        }
        proof {
            assert(forall|j: int| 15 <= j < CREATE_RECORD_BYTES ==> before_name[j] == 0);
            assert(payload@.subrange(15, 15 + name@.len() as int) =~= name@);
            assert(le_u16(payload@, 0) == le_u16(before_name, 0));
            assert(le_u32(payload@, 2) == le_u32(before_name, 2));
            assert(le_u16(payload@, 6) == le_u16(before_name, 6));
            assert(le_u32(payload@, 8) == le_u32(before_name, 8));
            assert(le_u16(payload@, 13) == le_u16(before_name, 13));
        }
        Ok((id, payload))
    }
}

/// Write `value` little-endian at `offset`.
fn put_u16(bytes: &mut [u8], offset: usize, value: u16)
    requires
        offset + 2 <= old(bytes)@.len(),
    ensures
        same_outside(old(bytes)@, final(bytes)@, offset as int, 2),
        le_u16(final(bytes)@, offset as int) == value,
{
    let b0 = (value % 256) as u8;
    let b1 = (value / 256) as u8;
    assert(b0 + b1 * 256 == value) by (nonlinear_arith)
        requires
            b0 == value % 256,
            b1 == value / 256,
    ;
    bytes[offset] = b0;
    bytes[offset + 1] = b1;
}

/// Write `value` little-endian at `offset`.
fn put_u32(bytes: &mut [u8], offset: usize, value: u32)
    requires
        offset + 4 <= old(bytes)@.len(),
    ensures
        same_outside(old(bytes)@, final(bytes)@, offset as int, 4),
        le_u32(final(bytes)@, offset as int) == value,
{
    let b0 = (value % 256) as u8;
    let b1 = ((value / 256) % 256) as u8;
    let b2 = ((value / 65536) % 256) as u8;
    let b3 = (value / 16777216) as u8;
    assert(b0 + b1 * 256 + b2 * 65536 + b3 * 16777216 == value) by (nonlinear_arith)
        requires
            b0 == value % 256,
            b1 == (value / 256) % 256,
            b2 == (value / 65536) % 256,
            b3 == value / 16777216,
    ;
    bytes[offset] = b0;
    bytes[offset + 1] = b1;
    bytes[offset + 2] = b2;
    bytes[offset + 3] = b3;
}

fn get_u16(bytes: &[u8], offset: usize) -> (r: u16)
    requires
        offset + 2 <= bytes@.len(),
    ensures
        r == le_u16(bytes@, offset as int),
{
    crate::aml::read_le_u16_at(bytes, offset)
}

fn get_u32(bytes: &[u8], offset: usize) -> (r: u32)
    requires
        offset + 4 <= bytes@.len(),
    ensures
        r == le_u32(bytes@, offset as int),
{
    crate::aml::read_le_u32_at(bytes, offset)
}

/// What `stat` reports about an object.
#[derive(Clone, Copy, Debug, PartialEq, Eq)]
pub struct ObjectInfo {
    pub id: ObjectId,
    pub parent: ObjectId,
    pub kind: ObjectKind,
    pub length: u32,
    pub name: [u8; MAX_COMPONENT_BYTES],
    pub name_length: u16,
}

impl ObjectInfo {
    /// The name: the first `name_length` bytes of the name field.
    pub fn name_bytes(&self) -> (r: Vec<u8>)
        requires
            self.name_length <= MAX_COMPONENT_BYTES,
        ensures
            r@ == self.name@.take(self.name_length as int),
    {
        let mut out: Vec<u8> = Vec::new();
        let length = self.name_length as usize;
        let mut i: usize = 0;
        while i < length
            invariant
                length == self.name_length,
                length <= MAX_COMPONENT_BYTES,
                i <= length,
                out@ == self.name@.take(i as int),
            decreases length - i,
        {
            out.push(self.name[i]);
            i += 1;
            assert(out@ =~= self.name@.take(i as int));
        }
        out
    }
}

/// The children of a directory, at most `MAX_OBJECTS` of them.
#[derive(Clone, Copy, Debug)]
pub struct ObjectList {
    ids: [Option<ObjectId>; MAX_OBJECTS],
    count: usize,
}

impl ObjectList {
    pub closed spec fn ids(self) -> Seq<Option<ObjectId>> {
        self.ids@
    }

    pub closed spec fn count(self) -> usize {
        self.count
    }

    pub fn empty() -> (r: Self)
        ensures
            r.count() == 0,
            r.ids() == seq![None::<ObjectId>, None, None, None],
    {
        let r = ObjectList { ids: [None; MAX_OBJECTS], count: 0 };
        assert(r.ids() =~= seq![None::<ObjectId>, None, None, None]);
        r
    }

    pub fn len(self) -> (r: usize)
        ensures
            r == self.count(),
    {
        self.count
    }

    pub fn is_empty(self) -> (r: bool)
        ensures
            r == (self.count() == 0),
    {
        self.count == 0
    }

    /// Entry `index`, when it is among the first `len()`.
    pub fn get(self, index: usize) -> (r: Option<ObjectId>)
        ensures
            r == (if index >= self.count() || index >= MAX_OBJECTS {
                None
            } else {
                self.ids()[index as int]
            }),
    {
        if index >= self.count || index >= MAX_OBJECTS {
            None
        } else {
            self.ids[index]
        }
    }
}

// ----- laws -----

/// No slot's generation goes back, a slot that comes to life does so
/// under a newer generation, and a slot that stays alive keeps its own.
pub open spec fn generations_advance(before: Seq<ObjectRecord>, after: Seq<ObjectRecord>) -> bool {
    &&& after.len() == before.len()
    &&& forall|j: int|
        0 <= j < before.len() ==> {
            &&& (#[trigger] after[j]).generation >= before[j].generation
            &&& after[j].alive && !before[j].alive ==> after[j].generation > before[j].generation
            &&& after[j].alive && before[j].alive ==> after[j].generation == before[j].generation
        }
}

proof fn lemma_first_dead_found(ns: Seq<ObjectRecord>, i: int)
    requires
        0 <= i,
    ensures
        first_dead(ns, i) matches Some(k) ==> i <= k < ns.len() && !ns[k].alive,
    decreases ns.len() - i,
{
    if i < ns.len() && ns[i].alive {
        lemma_first_dead_found(ns, i + 1);
    }
}

proof fn lemma_first_child_none(ns: Seq<ObjectRecord>, parent: ObjectId, name: Seq<u8>, i: int)
    requires
        0 <= i,
        first_child(ns, parent, name, i) is None,
    ensures
        forall|j: int| i <= j < ns.len() ==> !child_at(ns, parent, name, j),
    decreases ns.len() - i,
{
    if i < ns.len() {
        lemma_first_child_none(ns, parent, name, i + 1);
    }
}

proof fn lemma_first_child_only(ns: Seq<ObjectRecord>, parent: ObjectId, name: Seq<u8>, k: int, i: int)
    requires
        0 <= i <= k < ns.len(),
        child_at(ns, parent, name, k),
        forall|j: int| i <= j < ns.len() && j != k ==> !child_at(ns, parent, name, j),
    ensures
        first_child(ns, parent, name, i) == Some(k),
    decreases k - i,
{
    if i < k {
        lemma_first_child_only(ns, parent, name, k, i + 1);
    }
}

/// Replaying any record moves generations only forward.
pub proof fn lemma_replay_advances_generations(
    before: Seq<ObjectRecord>,
    after: Seq<ObjectRecord>,
    kind: u16,
    p: Seq<u8>,
    r: Result<(), NamespaceError>,
)
    requires
        namespace_wf(before),
        record_result(before, after, kind, p, r),
    ensures
        generations_advance(before, after),
{
}

/// An identifier that names nothing live, at or below its slot's
/// generation, still names nothing live after any replay: a removed
/// object's identifier never comes back.
pub proof fn lemma_stale_stays_stale(before: Seq<ObjectRecord>, after: Seq<ObjectRecord>, id: ObjectId)
    requires
        generations_advance(before, after),
        (id.slot as int) < before.len(),
        !live_id(before, id),
        before[id.slot as int].generation >= id.generation,
    ensures
        !live_id(after, id),
        after[id.slot as int].generation >= id.generation,
{
    assert(after[id.slot as int].generation >= before[id.slot as int].generation);
}

/// Unlinking leaves the removed object's identifier stale, at its slot's
/// generation.
pub proof fn lemma_unlink_makes_stale(before: Seq<ObjectRecord>, after: Seq<ObjectRecord>, p: Seq<u8>, r: Result<(), NamespaceError>)
    requires
        namespace_wf(before),
        unlink_result(before, after, p, r),
        r is Ok,
    ensures
        ({
            let id = ObjectId { slot: le_u16(p, 0) as u16, generation: le_u32(p, 2) as u32 };
            &&& live_id(before, id)
            &&& !live_id(after, id)
            &&& after[id.slot as int].generation >= id.generation
        }),
{
}

/// A planned create, once replayed, succeeds and makes the planned
/// object live under its name in its parent, where looking the name up
/// finds it.
pub proof fn lemma_planned_create_applies(
    before: Seq<ObjectRecord>,
    after: Seq<ObjectRecord>,
    parent: ObjectId,
    kind: ObjectKind,
    name: Seq<u8>,
    id: ObjectId,
    p: Seq<u8>,
    r: Result<(), NamespaceError>,
)
    requires
        namespace_wf(before),
        parent.generation != 0,
        plan_create_out(before, parent, kind, name) == Ok::<ObjectId, NamespaceError>(id),
        create_record(p, id, parent, kind, name),
        create_result(before, after, p, r),
    ensures
        r is Ok,
        live_id(after, id),
        after[id.slot as int].kind == kind,
        find_child_out(after, parent, name) == Ok::<Option<ObjectId>, NamespaceError>(Some(id)),
{
    lemma_first_dead_found(before, 0);
    let slot = id.slot as int;
    assert(name_field(p, 15, le_u16(p, 13)) == name);
    assert(kind_of(p[12]) == kind);
    assert(first_dead(before, 0) == Some(slot));
    assert(0 <= slot < before.len() && !before[slot].alive);
    assert(le_u32(p, 2) != 0 && le_u32(p, 8) != 0);
    assert(0 < le_u16(p, 13) <= MAX_COMPONENT_BYTES);
    assert((ObjectId { slot: le_u16(p, 6) as u16, generation: le_u32(p, 8) as u32 }) == parent);
    assert(le_u16(p, 0) == slot);
    assert(before[slot].generation < le_u32(p, 2) as u32);
    assert(create_checked(before, p) == Ok::<(int, u32, ObjectId, ObjectKind, Seq<u8>), NamespaceError>(
        (slot, id.generation, parent, kind, name),
    ));
    lemma_first_child_none(before, parent, name, 0);
    assert(parent.slot != id.slot);
    assert(live_id(after, parent));
    assert forall|j: int| 0 <= j < after.len() && j != slot implies !child_at(after, parent, name, j) by {
        assert(after[j] == before[j]);
        assert(!child_at(before, parent, name, j));
    }
    assert(child_at(after, parent, name, slot));
    lemma_first_child_only(after, parent, name, slot, 0);
}

/// An object made in the root directory is found by the path of its
/// name.
pub proof fn lemma_created_in_root_resolves(after: Seq<ObjectRecord>, name: Seq<u8>, id: ObjectId)
    requires
        namespace_wf(after),
        component_valid(name),
        find_child_out(after, root_id(), name) == Ok::<Option<ObjectId>, NamespaceError>(Some(id)),
    ensures
        resolve_path_out(after, seq![0x2fu8] + name) == Ok::<ObjectId, NamespaceError>(id),
{
    let path = seq![0x2fu8] + name;
    assert(path != seq![0x2fu8]) by {
        assert(path.len() != 1);
    }
    assert(path[0] == 0x2f);
    lemma_next_slash(path, 1);
    assert forall|j: int| 1 <= j < path.len() implies path[j] != 0x2f by {
        assert(path[j] == name[j - 1]);
    }
    if next_slash(path, 1) < path.len() {
        assert(path[next_slash(path, 1)] == 0x2f);
    }
    assert(next_slash(path, 1) == path.len());
    assert(path.subrange(1, path.len() as int) =~= name);
    assert(resolve_from(after, path, path.len() as int + 1, id, 1) == Ok::<ObjectId, NamespaceError>(id));
}

} // verus!
