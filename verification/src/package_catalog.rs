//! The package catalog of the storage service: one record per installed
//! service package, naming the block extents that hold it, kept in the
//! storage snapshot and changed by install records from the journal.

use vstd::prelude::*;
use crate::acpi::{le_u32, le_u64};
use crate::codec::{get_u32, get_u64};
use crate::namespace::BLOCK_BYTES;
use crate::namespace_snapshot::PACKAGE_SNAPSHOT_BYTES;
use crate::user_snapshot::{
    le32, le64, zeros, flag, joined, array_of, lemma_array_of, push_le32, push_le64, push_zeros, lemma_le32_at,
    lemma_le64_at, lemma_joined_at, lemma_joined_len,
};

verus! {

pub const MAX_PACKAGE_RECORDS: usize = 16;
pub const MAX_PACKAGE_EXTENTS: usize = 8;
/// The smallest package: its header alone.
pub const PACKAGE_HEADER_BYTES: usize = 64;
/// The largest package.
pub const MAX_PACKAGE_BYTES_V2: usize = 262144;
/// The blocks the largest package takes.
pub const MAX_PACKAGE_BLOCKS: usize = 64;
/// The journal record kind of a package install.
pub const PACKAGE_INSTALL_KIND: u16 = 0x0100;
pub const PACKAGE_RECORD_BYTES: usize = 152;
/// Records in a snapshot of the first format.
pub const LEGACY_PACKAGE_RECORDS: usize = 8;

/// The services a package can hold.
#[derive(Clone, Copy, Debug, PartialEq, Eq, Structural)]
pub enum ServiceId {
    Input,
    Display,
    Terminal,
    Session,
    Flow,
    Storage,
    Network,
    Fetch,
}

pub open spec fn service_index(s: ServiceId) -> int {
    match s {
        ServiceId::Input => 0,
        ServiceId::Display => 1,
        ServiceId::Terminal => 2,
        ServiceId::Session => 3,
        ServiceId::Flow => 4,
        ServiceId::Storage => 5,
        ServiceId::Network => 6,
        ServiceId::Fetch => 7,
    }
}

pub open spec fn service_at_index(i: int) -> Option<ServiceId> {
    if i == 0 {
        Some(ServiceId::Input)
    } else if i == 1 {
        Some(ServiceId::Display)
    } else if i == 2 {
        Some(ServiceId::Terminal)
    } else if i == 3 {
        Some(ServiceId::Session)
    } else if i == 4 {
        Some(ServiceId::Flow)
    } else if i == 5 {
        Some(ServiceId::Storage)
    } else if i == 6 {
        Some(ServiceId::Network)
    } else if i == 7 {
        Some(ServiceId::Fetch)
    } else {
        None
    }
}

impl ServiceId {
    /// The service's place in the list of services, from 0.
    pub fn index(self) -> (r: usize)
        ensures
            r == service_index(self),
    {
        match self {
            ServiceId::Input => 0,
            ServiceId::Display => 1,
            ServiceId::Terminal => 2,
            ServiceId::Session => 3,
            ServiceId::Flow => 4,
            ServiceId::Storage => 5,
            ServiceId::Network => 6,
            ServiceId::Fetch => 7,
        }
    }

    /// The service at `index` in the list of services.
    pub fn from_index(index: usize) -> (r: Option<ServiceId>)
        ensures
            r == service_at_index(index as int),
    {
        if index == 0 {
            Some(ServiceId::Input)
        } else if index == 1 {
            Some(ServiceId::Display)
        } else if index == 2 {
            Some(ServiceId::Terminal)
        } else if index == 3 {
            Some(ServiceId::Session)
        } else if index == 4 {
            Some(ServiceId::Flow)
        } else if index == 5 {
            Some(ServiceId::Storage)
        } else if index == 6 {
            Some(ServiceId::Network)
        } else if index == 7 {
            Some(ServiceId::Fetch)
        } else {
            None
        }
    }
}

#[derive(Clone, Copy, Debug, PartialEq, Eq, Structural)]
pub enum PackageCatalogError {
    Unsupported,
    Busy,
    Capacity,
    VersionConflict,
    MissingDependency,
    DependencyConflict,
    TooLarge,
    InvalidRequest,
    Stale,
    NoSpace,
    InvalidRecord,
}

/// A run of blocks holding part of a package.
#[derive(Clone, Copy, Debug, PartialEq, Eq, Structural)]
pub struct PackageExtent {
    pub start: u64,
    pub blocks: u32,
}

/// A package as installed: its service and the generation of the install.
#[derive(Clone, Copy, Debug, PartialEq, Eq, Structural)]
pub struct PackageHandle {
    pub service: ServiceId,
    pub generation: u32,
}

/// What the catalog says of an installed package.
#[derive(Clone, Copy, Debug)]
pub struct PackageInfo {
    pub handle: PackageHandle,
    pub package_version: u32,
    pub bytes: u32,
    pub crc32c: u32,
    pub extents: [PackageExtent; MAX_PACKAGE_EXTENTS],
    pub extent_count: u8,
}

/// One slot of the catalog.
#[derive(Clone, Copy, Debug)]
pub struct PackageRecord {
    pub alive: bool,
    pub service: ServiceId,
    pub generation: u32,
    pub package_version: u32,
    pub bytes: u32,
    pub crc32c: u32,
    pub extents: [PackageExtent; MAX_PACKAGE_EXTENTS],
    pub extent_count: u8,
}

pub open spec fn empty_extent() -> PackageExtent {
    PackageExtent { start: 0, blocks: 0 }
}

/// An empty slot.
pub open spec fn empty_package_record(r: PackageRecord) -> bool {
    &&& !r.alive
    &&& r.service == ServiceId::Input
    &&& r.generation == 0
    &&& r.package_version == 0
    &&& r.bytes == 0
    &&& r.crc32c == 0
    &&& r.extent_count == 0
    &&& forall|k: int| 0 <= k < MAX_PACKAGE_EXTENTS ==> #[trigger] r.extents@[k] == empty_extent()
}

pub open spec fn info_of(r: PackageRecord) -> PackageInfo {
    PackageInfo {
        handle: PackageHandle { service: r.service, generation: r.generation },
        package_version: r.package_version,
        bytes: r.bytes,
        crc32c: r.crc32c,
        extents: r.extents,
        extent_count: r.extent_count,
    }
}

impl PackageRecord {
    /// An empty slot.
    pub fn empty() -> (r: Self)
        ensures
            empty_package_record(r),
    {
        PackageRecord {
            alive: false,
            service: ServiceId::Input,
            generation: 0,
            package_version: 0,
            bytes: 0,
            crc32c: 0,
            extents: [PackageExtent { start: 0, blocks: 0 }; MAX_PACKAGE_EXTENTS],
            extent_count: 0,
        }
    }

    /// What the catalog says of the package in this slot.
    pub fn info(self) -> (r: PackageInfo)
        ensures
            r == info_of(self),
    {
        PackageInfo {
            handle: PackageHandle { service: self.service, generation: self.generation },
            package_version: self.package_version,
            bytes: self.bytes,
            crc32c: self.crc32c,
            extents: self.extents,
            extent_count: self.extent_count,
        }
    }
}

// ----- the record layout -----

pub open spec fn package_extent_wire(e: PackageExtent) -> Seq<u8> {
    le64(e.start) + le32(e.blocks) + zeros(4)
}

/// A record: liveness, the service's number from 1, generation, version,
/// length, checksum, extent count, and every extent in 16 bytes.
pub open spec fn package_record_wire(r: PackageRecord) -> Seq<u8> {
    seq![flag(r.alive), (service_index(r.service) + 1) as u8, 0u8, 0u8] + le32(r.generation) + le32(
        r.package_version,
    ) + le32(r.bytes) + le32(r.crc32c) + seq![r.extent_count, 0u8, 0u8, 0u8] + joined(
        r.extents@,
        |e: PackageExtent| package_extent_wire(e),
    )
}

pub open spec fn wire_package_extent(w: Seq<u8>, k: int) -> PackageExtent {
    PackageExtent { start: le_u64(w, 24 + 16 * k) as u64, blocks: le_u32(w, 32 + 16 * k) as u32 }
}

pub open spec fn wire_package_extents(w: Seq<u8>) -> Seq<PackageExtent> {
    Seq::new(MAX_PACKAGE_EXTENTS as nat, |k: int| wire_package_extent(w, k))
}

/// The service a record's second byte names.
pub open spec fn wire_service(w: Seq<u8>) -> Option<ServiceId> {
    if w[1] == 0 {
        None
    } else {
        service_at_index(w[1] - 1)
    }
}

/// A record's bytes hold a record: a liveness flag, a known service, an
/// extent count within the limit with exactly that many extents of some
/// blocks and empty ones after; a live record has a generation and a
/// length within the package limits, an empty one nothing at all.
pub open spec fn package_wire_ok(w: Seq<u8>) -> bool {
    let count = w[20] as int;
    let generation = le_u32(w, 4);
    let bytes = le_u32(w, 12);
    &&& w.len() >= PACKAGE_RECORD_BYTES
    &&& w[0] <= 1
    &&& wire_service(w) is Some
    &&& count <= MAX_PACKAGE_EXTENTS
    &&& forall|k: int|
        0 <= k < MAX_PACKAGE_EXTENTS ==> if k < count {
            (#[trigger] wire_package_extent(w, k)).blocks != 0
        } else {
            wire_package_extent(w, k) == empty_extent()
        }
    &&& w[0] != 0 ==> generation != 0 && PACKAGE_HEADER_BYTES <= bytes <= MAX_PACKAGE_BYTES_V2
    &&& w[0] == 0 ==> generation == 0 && bytes == 0 && le_u32(w, 16) == 0 && count == 0
}

/// The record a record's bytes describe.
pub open spec fn package_from_wire(w: Seq<u8>) -> PackageRecord {
    PackageRecord {
        alive: w[0] != 0,
        service: wire_service(w).unwrap(),
        generation: le_u32(w, 4) as u32,
        package_version: le_u32(w, 8) as u32,
        bytes: le_u32(w, 12) as u32,
        crc32c: le_u32(w, 16) as u32,
        extents: array_of(wire_package_extents(w)),
        extent_count: w[20],
    }
}

fn push_package_extent(v: &mut Vec<u8>, e: PackageExtent)
    ensures
        final(v)@ == old(v)@ + package_extent_wire(e),
{
    push_le64(v, e.start);
    push_le32(v, e.blocks);
    push_zeros(v, 4);
    assert(v@ =~= old(v)@ + package_extent_wire(e));
}

/// The bytes of one record.
fn record_bytes(record: &PackageRecord) -> (r: Vec<u8>)
    ensures
        r@ == package_record_wire(*record),
{
    let mut v: Vec<u8> = Vec::new();
    v.push(if record.alive { 1u8 } else { 0u8 });
    v.push((record.service.index() + 1) as u8);
    v.push(0);
    v.push(0);
    push_le32(&mut v, record.generation);
    push_le32(&mut v, record.package_version);
    push_le32(&mut v, record.bytes);
    push_le32(&mut v, record.crc32c);
    v.push(record.extent_count);
    v.push(0);
    v.push(0);
    v.push(0);
    let ghost head = v@;
    let mut k: usize = 0;
    while k < MAX_PACKAGE_EXTENTS
        invariant
            k <= MAX_PACKAGE_EXTENTS,
            v@ == head + joined(record.extents@.take(k as int), |e: PackageExtent| package_extent_wire(e)),
        decreases MAX_PACKAGE_EXTENTS - k,
    {
        push_package_extent(&mut v, record.extents[k]);
        proof {
            crate::namespace_snapshot::lemma_joined_push(
                record.extents@.take(k as int),
                record.extents@[k as int],
                |e: PackageExtent| package_extent_wire(e),
            );
            assert(record.extents@.take(k as int).push(record.extents@[k as int]) =~= record.extents@.take(k + 1));
        }
        k += 1;
    }
    assert(record.extents@.take(MAX_PACKAGE_EXTENTS as int) =~= record.extents@);
    assert(v@ =~= package_record_wire(*record));
    v
}

/// Writes one record at the front of `output`.
pub fn encode_record(record: &PackageRecord, output: &mut [u8])
    requires
        old(output)@.len() >= PACKAGE_RECORD_BYTES,
    ensures
        final(output)@ == package_record_wire(*record) + old(output)@.skip(PACKAGE_RECORD_BYTES as int),
{
    let bytes = record_bytes(record);
    proof {
        lemma_package_record_layout(*record);
    }
    let ghost original = output@;
    let mut k: usize = 0;
    while k < PACKAGE_RECORD_BYTES
        invariant
            k <= PACKAGE_RECORD_BYTES,
            bytes@.len() == PACKAGE_RECORD_BYTES,
            output@.len() == original.len(),
            original.len() >= PACKAGE_RECORD_BYTES,
            forall|x: int| 0 <= x < k ==> #[trigger] output@[x] == bytes@[x],
            forall|x: int| k <= x < original.len() ==> #[trigger] output@[x] == original[x],
        decreases PACKAGE_RECORD_BYTES - k,
    {
        output[k] = bytes[k];
        k += 1;
    }
    assert(output@ =~= package_record_wire(*record) + original.skip(PACKAGE_RECORD_BYTES as int));
}

/// Reads one record from the front of `input`.
pub fn decode_record(input: &[u8]) -> (r: Result<PackageRecord, PackageCatalogError>)
    ensures
        match r {
            Ok(record) => package_wire_ok(input@) && record == package_from_wire(input@),
            Err(e) => !package_wire_ok(input@) && e == PackageCatalogError::InvalidRecord,
        },
{
    if input.len() < PACKAGE_RECORD_BYTES || input[0] > 1 {
        return Err(PackageCatalogError::InvalidRecord);
    }
    if input[1] == 0 {
        return Err(PackageCatalogError::InvalidRecord);
    }
    let service = match ServiceId::from_index((input[1] - 1) as usize) {
        None => return Err(PackageCatalogError::InvalidRecord),
        Some(service) => service,
    };
    let count = input[20] as usize;
    if count > MAX_PACKAGE_EXTENTS {
        return Err(PackageCatalogError::InvalidRecord);
    }
    let mut extents = [PackageExtent { start: 0, blocks: 0 }; MAX_PACKAGE_EXTENTS];
    let mut k: usize = 0;
    while k < MAX_PACKAGE_EXTENTS
        invariant
            k <= MAX_PACKAGE_EXTENTS,
            input@.len() >= PACKAGE_RECORD_BYTES,
            count == input@[20],
            count <= MAX_PACKAGE_EXTENTS,
            extents@.len() == MAX_PACKAGE_EXTENTS,
            forall|j: int| 0 <= j < k ==> #[trigger] extents@[j] == wire_package_extent(input@, j),
            forall|j: int|
                0 <= j < k ==> if j < count {
                    (#[trigger] wire_package_extent(input@, j)).blocks != 0
                } else {
                    wire_package_extent(input@, j) == empty_extent()
                },
        decreases MAX_PACKAGE_EXTENTS - k,
    {
        let offset = 24 + k * 16;
        let extent = PackageExtent { start: get_u64(input, offset), blocks: get_u32(input, offset + 8) };
        assert(extent == wire_package_extent(input@, k as int));
        if k >= count && (extent.start != 0 || extent.blocks != 0) {
            return Err(PackageCatalogError::InvalidRecord);
        }
        if extent.blocks == 0 && k < count {
            return Err(PackageCatalogError::InvalidRecord);
        }
        extents[k] = extent;
        k += 1;
    }
    let generation = get_u32(input, 4);
    let bytes = get_u32(input, 12);
    let crc32c = get_u32(input, 16);
    if input[0] != 0 && (generation == 0 || (bytes as usize) < PACKAGE_HEADER_BYTES || bytes as usize
        > MAX_PACKAGE_BYTES_V2) {
        return Err(PackageCatalogError::InvalidRecord);
    }
    if input[0] == 0 && (generation != 0 || bytes != 0 || crc32c != 0 || count != 0) {
        return Err(PackageCatalogError::InvalidRecord);
    }
    let record = PackageRecord {
        alive: input[0] != 0,
        service,
        generation,
        package_version: get_u32(input, 8),
        bytes,
        crc32c,
        extents,
        extent_count: count as u8,
    };
    proof {
        assert(extents@ =~= wire_package_extents(input@));
        lemma_array_of(extents);
    }
    Ok(record)
}

/// Reads one record of a snapshot of the first format, whose records are
/// laid out as those of the current one.
pub fn decode_legacy_record(input: &[u8]) -> (r: Result<PackageRecord, PackageCatalogError>)
    ensures
        match r {
            Ok(record) => package_wire_ok(input@) && record == package_from_wire(input@),
            Err(e) => !package_wire_ok(input@) && e == PackageCatalogError::InvalidRecord,
        },
{
    decode_record(input)
}

// ----- the catalog -----

/// The package slots.
#[derive(Clone, Copy)]
pub struct PackageCatalog {
    records: [PackageRecord; MAX_PACKAGE_RECORDS],
}

/// Every slot names at most the extents it has room for.
pub open spec fn catalog_wf(records: Seq<PackageRecord>) -> bool {
    &&& records.len() == MAX_PACKAGE_RECORDS
    &&& forall|i: int| 0 <= i < MAX_PACKAGE_RECORDS ==> (#[trigger] records[i]).extent_count <= MAX_PACKAGE_EXTENTS
}

/// The extents a record uses.
pub open spec fn used_by(r: PackageRecord) -> Seq<PackageExtent> {
    r.extents@.take(r.extent_count as int)
}

pub open spec fn extent_end(e: PackageExtent) -> int {
    e.start + e.blocks
}

pub open spec fn overlap(a: PackageExtent, b: PackageExtent) -> bool {
    a.start < extent_end(b) && b.start < extent_end(a)
}

/// The first live slot at or after `i` holding `service`.
pub open spec fn slot_of(records: Seq<PackageRecord>, service: ServiceId, i: int) -> Option<int>
    decreases records.len() - i,
{
    if i < 0 || i >= records.len() {
        None
    } else if records[i].alive && records[i].service == service {
        Some(i)
    } else {
        slot_of(records, service, i + 1)
    }
}

/// The first empty slot at or after `i`.
pub open spec fn free_slot(records: Seq<PackageRecord>, i: int) -> Option<int>
    decreases records.len() - i,
{
    if i < 0 || i >= records.len() {
        None
    } else if !records[i].alive {
        Some(i)
    } else {
        free_slot(records, i + 1)
    }
}

/// The `n`-th live slot at or after `i`.
pub open spec fn live_slot(records: Seq<PackageRecord>, n: int, i: int) -> Option<int>
    decreases records.len() - i,
{
    if i < 0 || i >= records.len() {
        None
    } else if records[i].alive {
        if n == 0 {
            Some(i)
        } else {
            live_slot(records, n - 1, i + 1)
        }
    } else {
        live_slot(records, n, i + 1)
    }
}

/// What looking a service up gives.
pub open spec fn lookup_out(records: Seq<PackageRecord>, service: ServiceId) -> Option<PackageInfo> {
    match slot_of(records, service, 0) {
        Some(i) => Some(info_of(records[i])),
        None => None,
    }
}

/// The extents of the live slots, slot by slot.
pub open spec fn used_extents_of(records: Seq<PackageRecord>) -> Seq<PackageExtent>
    decreases records.len(),
{
    if records.len() == 0 {
        Seq::empty()
    } else {
        used_extents_of(records.drop_last()) + if records.last().alive {
            used_by(records.last())
        } else {
            Seq::empty()
        }
    }
}

/// Some live slot has an extent holding `block`.
pub open spec fn block_taken(records: Seq<PackageRecord>, block: int) -> bool {
    exists|i: int, k: int|
        0 <= i < records.len() && records[i].alive && 0 <= k < records[i].extent_count && #[trigger] records[i].extents@[k].start
            <= block && block < extent_end(records[i].extents@[k]) && extent_end(records[i].extents@[k]) <= u64::MAX
}

/// Blocks of the extents.
pub open spec fn package_blocks(extents: Seq<PackageExtent>) -> int
    decreases extents.len(),
{
    if extents.len() == 0 {
        0
    } else {
        package_blocks(extents.drop_last()) + extents.last().blocks
    }
}

pub open spec fn blocks_of_bytes(bytes: int) -> int {
    (bytes + BLOCK_BYTES - 1) / BLOCK_BYTES as int
}

/// Where a live record may lie among the others, `skip` aside: in the
/// arena, its extents apart from each other and from those of every other
/// live slot, and exactly as many blocks as its length takes.
pub open spec fn layout_ok(
    record: PackageRecord,
    lo: u64,
    hi: u64,
    records: Seq<PackageRecord>,
    skip: Option<int>,
) -> bool {
    let count = record.extent_count as int;
    let own = record.extents@;
    &&& lo < hi
    &&& record.alive
    &&& forall|k: int| 0 <= k < count ==> lo <= (#[trigger] own[k]).start && extent_end(own[k]) <= hi
    &&& forall|k: int, m: int| 0 <= m < k < count ==> !overlap(#[trigger] own[k], #[trigger] own[m])
    &&& count > 0 ==> forall|j: int, l: int|
        0 <= j < records.len() && skip != Some(j) && records[j].alive && 0 <= l < records[j].extent_count ==> extent_end(
            #[trigger] records[j].extents@[l],
        ) <= u64::MAX && forall|k: int| 0 <= k < count ==> !overlap(#[trigger] own[k], records[j].extents@[l])
    &&& package_blocks(own.take(count)) == blocks_of_bytes(record.bytes as int)
}

proof fn lemma_package_blocks_step(extents: Seq<PackageExtent>, i: int)
    requires
        0 <= i < extents.len(),
    ensures
        package_blocks(extents.take(i + 1)) == package_blocks(extents.take(i)) + extents[i].blocks,
{
    assert(extents.take(i + 1).drop_last() =~= extents.take(i));
}

proof fn lemma_package_blocks_bound(extents: Seq<PackageExtent>)
    ensures
        0 <= package_blocks(extents) <= extents.len() * 0xffff_ffff,
    decreases extents.len(),
{
    if extents.len() > 0 {
        lemma_package_blocks_bound(extents.drop_last());
    }
}

/// Checks where a live record lies among the others, `skip` aside.
pub fn validate_record_layout(
    record: &PackageRecord,
    arena: (u64, u64),
    records: &[PackageRecord; MAX_PACKAGE_RECORDS],
    skip: Option<usize>,
) -> (r: Result<(), PackageCatalogError>)
    requires
        record.extent_count <= MAX_PACKAGE_EXTENTS,
        catalog_wf(records@),
    ensures
        r == (if layout_ok(*record, arena.0, arena.1, records@, match skip {
            Some(j) => Some(j as int),
            None => None,
        }) {
            Ok::<(), PackageCatalogError>(())
        } else {
            Err(PackageCatalogError::InvalidRecord)
        }),
{
    let ghost skip_at: Option<int> = match skip {
        Some(j) => Some(j as int),
        None => None,
    };
    if arena.1 <= arena.0 || !record.alive {
        return Err(PackageCatalogError::InvalidRecord);
    }
    let count = record.extent_count as usize;
    let ghost own = record.extents@;
    let mut total: u64 = 0;
    let mut k: usize = 0;
    while k < count
        invariant
            k <= count <= MAX_PACKAGE_EXTENTS,
            count == record.extent_count,
            own == record.extents@,
            arena.0 < arena.1,
            record.alive,
            catalog_wf(records@),
            skip_at == (match skip {
                Some(j) => Some(j as int),
                None => None,
            }),
            total == package_blocks(own.take(k as int)),
            total <= k * 0xffff_ffff,
            forall|x: int| 0 <= x < k ==> arena.0 <= (#[trigger] own[x]).start && extent_end(own[x]) <= arena.1,
            forall|x: int, m: int| 0 <= m < x < k ==> !overlap(#[trigger] own[x], #[trigger] own[m]),
            k > 0 ==> forall|j: int, l: int|
                0 <= j < records@.len() && skip_at != Some(j) && records@[j].alive && 0 <= l < records@[j].extent_count
                    ==> extent_end(#[trigger] records@[j].extents@[l]) <= u64::MAX && forall|x: int|
                    0 <= x < k ==> !overlap(#[trigger] own[x], records@[j].extents@[l]),
        decreases count - k,
    {
        let extent = record.extents[k];
        assert(extent == own[k as int]);
        if extent.blocks as u64 > u64::MAX - extent.start {
            assert(extent_end(own[k as int]) > arena.1);
            return Err(PackageCatalogError::InvalidRecord);
        }
        let end = extent.start + extent.blocks as u64;
        if extent.start < arena.0 || end > arena.1 {
            return Err(PackageCatalogError::InvalidRecord);
        }
        proof {
            lemma_package_blocks_step(own, k as int);
        }
        total = total + extent.blocks as u64;
        let mut m: usize = 0;
        while m < k
            invariant
                m <= k < count <= MAX_PACKAGE_EXTENTS,
                count == record.extent_count,
                skip_at == (match skip {
                    Some(x) => Some(x as int),
                    None => None,
                }),
                own == record.extents@,
                extent == own[k as int],
                end == extent_end(extent),
                forall|x: int| 0 <= x < k ==> arena.0 <= (#[trigger] own[x]).start && extent_end(own[x]) <= arena.1,
                forall|x: int| 0 <= x < m ==> !overlap(own[k as int], #[trigger] own[x]),
            decreases k - m,
        {
            let previous = record.extents[m];
            let previous_end = previous.start + previous.blocks as u64;
            if extent.start < previous_end && previous.start < end {
                assert(!layout_ok(*record, arena.0, arena.1, records@, skip_at)) by {
                    assert(overlap(own[k as int], own[m as int]));
                }
                return Err(PackageCatalogError::InvalidRecord);
            }
            m += 1;
        }
        let mut j: usize = 0;
        while j < MAX_PACKAGE_RECORDS
            invariant
                j <= MAX_PACKAGE_RECORDS,
                k < count <= MAX_PACKAGE_EXTENTS,
                count == record.extent_count,
                own == record.extents@,
                extent == own[k as int],
                end == extent_end(extent),
                catalog_wf(records@),
                skip_at == (match skip {
                    Some(x) => Some(x as int),
                    None => None,
                }),
                forall|i: int, l: int|
                    0 <= i < j && skip_at != Some(i) && records@[i].alive && 0 <= l < records@[i].extent_count ==> extent_end(
                        #[trigger] records@[i].extents@[l],
                    ) <= u64::MAX && !overlap(own[k as int], records@[i].extents@[l]),
            decreases MAX_PACKAGE_RECORDS - j,
        {
            let skipped = match skip {
                Some(x) => x == j,
                None => false,
            };
            let other = &records[j];
            assert(skipped == (skip_at == Some(j as int)));
            if !skipped && other.alive {
                let other_count = other.extent_count as usize;
                let mut l: usize = 0;
                while l < other_count
                    invariant
                        l <= other_count <= MAX_PACKAGE_EXTENTS,
                        j < MAX_PACKAGE_RECORDS,
                        k < count,
                        count == record.extent_count,
                        own == record.extents@,
                        skip_at == (match skip {
                            Some(x) => Some(x as int),
                            None => None,
                        }),
                        skip_at != Some(j as int),
                        records@[j as int].alive,
                        other_count == records@[j as int].extent_count,
                        *other == records@[j as int],
                        extent == own[k as int],
                        end == extent_end(extent),
                        forall|y: int|
                            0 <= y < l ==> extent_end(#[trigger] other.extents@[y]) <= u64::MAX && !overlap(
                                own[k as int],
                                other.extents@[y],
                            ),
                    decreases other_count - l,
                {
                    let other_extent = other.extents[l];
                    if other_extent.blocks as u64 > u64::MAX - other_extent.start {
                        assert(!layout_ok(*record, arena.0, arena.1, records@, skip_at)) by {
                            assert(extent_end(records@[j as int].extents@[l as int]) > u64::MAX);
                        }
                        return Err(PackageCatalogError::InvalidRecord);
                    }
                    let other_end = other_extent.start + other_extent.blocks as u64;
                    if extent.start < other_end && other_extent.start < end {
                        assert(!layout_ok(*record, arena.0, arena.1, records@, skip_at)) by {
                            assert(overlap(own[k as int], records@[j as int].extents@[l as int]));
                        }
                        return Err(PackageCatalogError::InvalidRecord);
                    }
                    l += 1;
                }
            }
            j += 1;
        }
        k += 1;
    }
    assert(own.take(count as int) =~= own.take(k as int));
    let expected = (record.bytes as u64 + BLOCK_BYTES as u64 - 1) / BLOCK_BYTES as u64;
    if total != expected {
        return Err(PackageCatalogError::InvalidRecord);
    }
    Ok(())
}

/// The bytes of a catalog snapshot: the format, the record count, every
/// record.
pub open spec fn catalog_wire(records: Seq<PackageRecord>) -> Seq<u8> {
    seq![2u8, MAX_PACKAGE_RECORDS as u8] + joined(records, |r: PackageRecord| package_record_wire(r))
}

/// The bytes of record `i` of a snapshot.
pub open spec fn snapshot_window(input: Seq<u8>, i: int) -> Seq<u8> {
    input.subrange(2 + PACKAGE_RECORD_BYTES * i, 2 + PACKAGE_RECORD_BYTES * i + PACKAGE_RECORD_BYTES)
}

pub open spec fn empty_record_value() -> PackageRecord {
    PackageRecord {
        alive: false,
        service: ServiceId::Input,
        generation: 0,
        package_version: 0,
        bytes: 0,
        crc32c: 0,
        extents: array_of(Seq::new(MAX_PACKAGE_EXTENTS as nat, |k: int| empty_extent())),
        extent_count: 0,
    }
}

/// The records a snapshot holds, `None` where one does not read.
pub open spec fn snapshot_records(input: Seq<u8>) -> Option<Seq<PackageRecord>> {
    if input[0] == 1 && input[1] == LEGACY_PACKAGE_RECORDS {
        if forall|i: int| 0 <= i < LEGACY_PACKAGE_RECORDS ==> package_wire_ok(#[trigger] snapshot_window(input, i)) {
            Some(
                Seq::new(
                    MAX_PACKAGE_RECORDS as nat,
                    |i: int|
                        if i < LEGACY_PACKAGE_RECORDS {
                            package_from_wire(snapshot_window(input, i))
                        } else {
                            empty_record_value()
                        },
                ),
            )
        } else {
            None
        }
    } else if forall|i: int| 0 <= i < MAX_PACKAGE_RECORDS ==> package_wire_ok(#[trigger] snapshot_window(input, i)) {
        Some(Seq::new(MAX_PACKAGE_RECORDS as nat, |i: int| package_from_wire(snapshot_window(input, i))))
    } else {
        None
    }
}

/// A live record names a service no earlier live record names, and lies
/// well among the others.
pub open spec fn records_consistent(records: Seq<PackageRecord>, lo: u64, hi: u64) -> bool {
    forall|i: int|
        0 <= i < records.len() && (#[trigger] records[i]).alive ==> slot_of(records, records[i].service, 0) == Some(i)
            && layout_ok(records[i], lo, hi, records, Some(i))
}

/// What restoring a snapshot gives: the records it holds once each live
/// one is checked against the package arena; `Unsupported` for live
/// records without an arena; `InvalidRecord` for anything else wrong.
pub open spec fn restore_catalog_out(input: Seq<u8>, arena: Option<(u64, u64)>) -> Result<
    Seq<PackageRecord>,
    PackageCatalogError,
> {
    if input.len() != PACKAGE_SNAPSHOT_BYTES || !((input[0] == 1 && input[1] == LEGACY_PACKAGE_RECORDS) || (input[0]
        == 2 && input[1] == MAX_PACKAGE_RECORDS)) {
        Err(PackageCatalogError::InvalidRecord)
    } else {
        match snapshot_records(input) {
            None => Err(PackageCatalogError::InvalidRecord),
            Some(records) => if !(exists|i: int| 0 <= i < records.len() && #[trigger] records[i].alive) {
                Ok(records)
            } else {
                match arena {
                    None => Err(PackageCatalogError::Unsupported),
                    Some((lo, hi)) => if records_consistent(records, lo, hi) {
                        Ok(records)
                    } else {
                        Err(PackageCatalogError::InvalidRecord)
                    },
                }
            },
        }
    }
}

/// What replaying an install record does: the slot it fills and the
/// record it puts there, the slot of its service or else the first empty
/// one.
pub open spec fn install_out(records: Seq<PackageRecord>, kind: u16, p: Seq<u8>, arena: Option<(u64, u64)>) -> Result<
    (int, PackageRecord),
    PackageCatalogError,
> {
    if kind != PACKAGE_INSTALL_KIND || p.len() != PACKAGE_RECORD_BYTES || !package_wire_ok(p) {
        Err(PackageCatalogError::InvalidRecord)
    } else {
        let record = package_from_wire(p);
        let slot = match slot_of(records, record.service, 0) {
            Some(i) => Some(i),
            None => free_slot(records, 0),
        };
        match slot {
            None => Err(PackageCatalogError::Capacity),
            Some(slot) => match arena {
                None => Err(PackageCatalogError::Unsupported),
                Some((lo, hi)) => if layout_ok(record, lo, hi, records, Some(slot)) {
                    Ok((slot, record))
                } else {
                    Err(PackageCatalogError::InvalidRecord)
                },
            },
        }
    }
}

impl PackageCatalog {
    pub closed spec fn view(&self) -> Seq<PackageRecord> {
        self.records@
    }

    pub open spec fn wf(&self) -> bool {
        catalog_wf(self@)
    }

    /// A catalog with no package.
    pub fn new() -> (r: Self)
        ensures
            r.wf(),
            forall|i: int| 0 <= i < MAX_PACKAGE_RECORDS ==> empty_package_record(#[trigger] r@[i]),
    {
        let empty = PackageRecord::empty();
        PackageCatalog { records: [empty; MAX_PACKAGE_RECORDS] }
    }

    /// A catalog holding `records`.
    pub fn from_records(records: [PackageRecord; MAX_PACKAGE_RECORDS]) -> (r: Self)
        requires
            catalog_wf(records@),
        ensures
            r.wf(),
            r@ == records@,
    {
        PackageCatalog { records }
    }

    pub(crate) fn slot_of(&self, service: ServiceId) -> (r: Option<usize>)
        ensures
            match r {
                Some(i) => slot_of(self@, service, 0) == Some(i as int) && i < MAX_PACKAGE_RECORDS,
                None => slot_of(self@, service, 0) is None,
            },
    {
        let mut i: usize = 0;
        while i < MAX_PACKAGE_RECORDS
            invariant
                i <= MAX_PACKAGE_RECORDS,
                self@.len() == MAX_PACKAGE_RECORDS,
                slot_of(self@, service, 0) == slot_of(self@, service, i as int),
            decreases MAX_PACKAGE_RECORDS - i,
        {
            if self.records[i].alive && self.records[i].service == service {
                return Some(i);
            }
            i += 1;
        }
        None
    }

    fn free_slot(&self) -> (r: Option<usize>)
        ensures
            match r {
                Some(i) => free_slot(self@, 0) == Some(i as int) && i < MAX_PACKAGE_RECORDS,
                None => free_slot(self@, 0) is None,
            },
    {
        let mut i: usize = 0;
        while i < MAX_PACKAGE_RECORDS
            invariant
                i <= MAX_PACKAGE_RECORDS,
                self@.len() == MAX_PACKAGE_RECORDS,
                free_slot(self@, 0) == free_slot(self@, i as int),
            decreases MAX_PACKAGE_RECORDS - i,
        {
            if !self.records[i].alive {
                return Some(i);
            }
            i += 1;
        }
        None
    }

    pub(crate) fn record_at(&self, i: usize) -> (r: PackageRecord)
        requires
            i < MAX_PACKAGE_RECORDS,
        ensures
            r == self@[i as int],
    {
        self.records[i]
    }

    /// The installed package of `service`, if any.
    pub fn lookup(&self, service: ServiceId) -> (r: Option<PackageInfo>)
        ensures
            r == lookup_out(self@, service),
    {
        match self.slot_of(service) {
            Some(i) => Some(self.records[i].info()),
            None => None,
        }
    }

    /// The service of the `index`-th live slot.
    pub fn service_at(&self, index: usize) -> (r: Option<ServiceId>)
        ensures
            r == (match live_slot(self@, index as int, 0) {
                Some(i) => Some(self@[i].service),
                None => None,
            }),
    {
        let mut n = index;
        let mut i: usize = 0;
        while i < MAX_PACKAGE_RECORDS
            invariant
                i <= MAX_PACKAGE_RECORDS,
                n <= index,
                self@.len() == MAX_PACKAGE_RECORDS,
                live_slot(self@, index as int, 0) == live_slot(self@, n as int, i as int),
            decreases MAX_PACKAGE_RECORDS - i,
        {
            if self.records[i].alive {
                if n == 0 {
                    return Some(self.records[i].service);
                }
                n -= 1;
            }
            i += 1;
        }
        None
    }

    /// The installed package a handle names; `Stale` once it is replaced
    /// or gone.
    pub fn validate_handle(&self, handle: PackageHandle) -> (r: Result<PackageInfo, PackageCatalogError>)
        ensures
            match lookup_out(self@, handle.service) {
                Some(info) => if info.handle == handle {
                    r == Ok::<PackageInfo, PackageCatalogError>(info)
                } else {
                    r == Err::<PackageInfo, PackageCatalogError>(PackageCatalogError::Stale)
                },
                None => r == Err::<PackageInfo, PackageCatalogError>(PackageCatalogError::Stale),
            },
    {
        let info = match self.lookup(handle.service) {
            None => return Err(PackageCatalogError::Stale),
            Some(info) => info,
        };
        if info.handle != handle {
            return Err(PackageCatalogError::Stale);
        }
        Ok(info)
    }

    /// The generation the next install of `service` takes.
    pub fn next_generation(&self, service: ServiceId) -> (r: Result<u32, PackageCatalogError>)
        ensures
            match lookup_out(self@, service) {
                None => r == Ok::<u32, PackageCatalogError>(1),
                Some(info) => if info.handle.generation == u32::MAX {
                    r == Err::<u32, PackageCatalogError>(PackageCatalogError::InvalidRequest)
                } else {
                    r == Ok::<u32, PackageCatalogError>((info.handle.generation + 1) as u32)
                },
            },
    {
        match self.lookup(service) {
            None => Ok(1),
            Some(info) => if info.handle.generation == u32::MAX {
                Err(PackageCatalogError::InvalidRequest)
            } else {
                Ok(info.handle.generation + 1)
            },
        }
    }

    /// The extents of the live packages, slot by slot.
    pub fn used_extents(&self) -> (r: Vec<PackageExtent>)
        requires
            self.wf(),
        ensures
            r@ == used_extents_of(self@),
    {
        let mut out: Vec<PackageExtent> = Vec::new();
        let ghost all = self@;
        let mut i: usize = 0;
        while i < MAX_PACKAGE_RECORDS
            invariant
                i <= MAX_PACKAGE_RECORDS,
                all == self@,
                catalog_wf(all),
                out@ == used_extents_of(all.take(i as int)),
            decreases MAX_PACKAGE_RECORDS - i,
        {
            let record = &self.records[i];
            let ghost base = out@;
            assert(all.take(i + 1).drop_last() =~= all.take(i as int));
            if record.alive {
                let count = record.extent_count as usize;
                let mut k: usize = 0;
                while k < count
                    invariant
                        k <= count <= MAX_PACKAGE_EXTENTS,
                        count == record.extent_count,
                        out@ == base + record.extents@.take(k as int),
                    decreases count - k,
                {
                    out.push(record.extents[k]);
                    k += 1;
                    assert(out@ =~= base + record.extents@.take(k as int));
                }
            } else {
                assert(out@ =~= base + Seq::<PackageExtent>::empty());
            }
            i += 1;
        }
        assert(all.take(MAX_PACKAGE_RECORDS as int) =~= all);
        out
    }

    /// Whether a live package holds `block`.
    pub fn block_used(&self, block: u64) -> (r: bool)
        requires
            self.wf(),
        ensures
            r == block_taken(self@, block as int),
    {
        let mut i: usize = 0;
        while i < MAX_PACKAGE_RECORDS
            invariant
                i <= MAX_PACKAGE_RECORDS,
                catalog_wf(self@),
                forall|x: int, k: int|
                    0 <= x < i && self@[x].alive && 0 <= k < self@[x].extent_count ==> !(#[trigger] self@[x].extents@[k].start
                        <= block && block < extent_end(self@[x].extents@[k]) && extent_end(self@[x].extents@[k]) <= u64::MAX),
            decreases MAX_PACKAGE_RECORDS - i,
        {
            let record = &self.records[i];
            if record.alive {
                let count = record.extent_count as usize;
                let mut k: usize = 0;
                while k < count
                    invariant
                        k <= count <= MAX_PACKAGE_EXTENTS,
                        i < MAX_PACKAGE_RECORDS,
                        self@.len() == MAX_PACKAGE_RECORDS,
                        self@[i as int].alive,
                        count == record.extent_count,
                        *record == self@[i as int],
                        forall|y: int|
                            0 <= y < k ==> !(#[trigger] record.extents@[y].start <= block && block < extent_end(
                                record.extents@[y],
                            ) && extent_end(record.extents@[y]) <= u64::MAX),
                    decreases count - k,
                {
                    let extent = record.extents[k];
                    if extent.blocks as u64 <= u64::MAX - extent.start && block >= extent.start && block
                        < extent.start + extent.blocks as u64 {
                        assert(self@[i as int].extents@[k as int].start <= block);
                        return true;
                    }
                    k += 1;
                }
            }
            i += 1;
        }
        false
    }
}

proof fn lemma_empty_value(r: PackageRecord)
    requires
        empty_package_record(r),
    ensures
        r == empty_record_value(),
{
    assert(r.extents@ =~= Seq::new(MAX_PACKAGE_EXTENTS as nat, |k: int| empty_extent()));
    lemma_array_of(r.extents);
}

impl PackageCatalog {
    /// Replaces the catalog with the records of a snapshot, each live one
    /// checked against the package arena.
    pub fn restore_snapshot(&mut self, input: &[u8], arena: Option<(u64, u64)>) -> (r: Result<(), PackageCatalogError>)
        requires
            old(self).wf(),
        ensures
            final(self).wf(),
            match restore_catalog_out(input@, arena) {
                Ok(records) => r == Ok::<(), PackageCatalogError>(()) && final(self)@ == records,
                Err(e) => r == Err::<(), PackageCatalogError>(e) && final(self)@ == old(self)@,
            },
    {
        if input.len() != PACKAGE_SNAPSHOT_BYTES {
            return Err(PackageCatalogError::InvalidRecord);
        }
        let legacy = input[0] == 1 && input[1] as usize == LEGACY_PACKAGE_RECORDS;
        if !legacy && !(input[0] == 2 && input[1] as usize == MAX_PACKAGE_RECORDS) {
            return Err(PackageCatalogError::InvalidRecord);
        }
        let empty = PackageRecord::empty();
        proof {
            lemma_empty_value(empty);
        }
        let mut records = [empty; MAX_PACKAGE_RECORDS];
        let limit = if legacy { LEGACY_PACKAGE_RECORDS } else { MAX_PACKAGE_RECORDS };
        let mut i: usize = 0;
        while i < limit
            invariant
                i <= limit <= MAX_PACKAGE_RECORDS,
                self.wf(),
                self@ == old(self)@,
                legacy == (input@[0] == 1 && input@[1] == LEGACY_PACKAGE_RECORDS),
                !legacy ==> input@[0] == 2 && input@[1] == MAX_PACKAGE_RECORDS,
                input@.len() == PACKAGE_SNAPSHOT_BYTES,
                limit == (if legacy { LEGACY_PACKAGE_RECORDS } else { MAX_PACKAGE_RECORDS }),
                records@.len() == MAX_PACKAGE_RECORDS,
                forall|j: int| 0 <= j < i ==> package_wire_ok(#[trigger] snapshot_window(input@, j)),
                forall|j: int| 0 <= j < i ==> #[trigger] records@[j] == package_from_wire(snapshot_window(input@, j)),
                forall|j: int| i <= j < MAX_PACKAGE_RECORDS ==> #[trigger] records@[j] == empty_record_value(),
            decreases limit - i,
        {
            let window = vstd::slice::slice_subrange(
                input,
                2 + PACKAGE_RECORD_BYTES * i,
                2 + PACKAGE_RECORD_BYTES * i + PACKAGE_RECORD_BYTES,
            );
            let decoded = if legacy { decode_legacy_record(window) } else { decode_record(window) };
            match decoded {
                Err(e) => {
                    assert(snapshot_records(input@) is None) by {
                        assert(!package_wire_ok(snapshot_window(input@, i as int)));
                    }
                    return Err(e);
                },
                Ok(record) => {
                    records[i] = record;
                },
            }
            i += 1;
        }
        let ghost table = records@;
        proof {
            if legacy {
                assert(snapshot_records(input@) == Some(table)) by {
                    assert(table =~= Seq::new(
                        MAX_PACKAGE_RECORDS as nat,
                        |i: int|
                            if i < LEGACY_PACKAGE_RECORDS {
                                package_from_wire(snapshot_window(input@, i))
                            } else {
                                empty_record_value()
                            },
                    ));
                }
            } else {
                assert(table =~= Seq::new(MAX_PACKAGE_RECORDS as nat, |i: int| package_from_wire(snapshot_window(input@, i))));
            }
            assert forall|j: int| 0 <= j < MAX_PACKAGE_RECORDS implies (#[trigger] table[j]).extent_count <= MAX_PACKAGE_EXTENTS by {
                if j < limit {
                    assert(package_wire_ok(snapshot_window(input@, j)));
                }
            }
        }
        let mut index: usize = 0;
        while index < MAX_PACKAGE_RECORDS
            invariant
                index <= MAX_PACKAGE_RECORDS,
                self.wf(),
                self@ == old(self)@,
                records@ == table,
                catalog_wf(table),
                snapshot_records(input@) == Some(table),
                input@.len() == PACKAGE_SNAPSHOT_BYTES,
                (input@[0] == 1 && input@[1] == LEGACY_PACKAGE_RECORDS) || (input@[0] == 2 && input@[1] == MAX_PACKAGE_RECORDS),
                forall|j: int| 0 <= j < index && (#[trigger] table[j]).alive ==> arena is Some,
                arena matches Some((lo, hi)) ==> forall|j: int|
                    0 <= j < index && (#[trigger] table[j]).alive ==> slot_of(table, table[j].service, 0) == Some(j)
                        && layout_ok(table[j], lo, hi, table, Some(j)),
            decreases MAX_PACKAGE_RECORDS - index,
        {
            let record = records[index];
            if record.alive {
                let area = match arena {
                    None => {
                        assert(restore_catalog_out(input@, arena) == Err::<Seq<PackageRecord>, PackageCatalogError>(
                            PackageCatalogError::Unsupported,
                        )) by {
                            assert(table[index as int].alive);
                        }
                        return Err(PackageCatalogError::Unsupported);
                    },
                    Some(area) => area,
                };
                let mut j: usize = 0;
                while j < index
                    invariant
                        j <= index < MAX_PACKAGE_RECORDS,
                        self.wf(),
                        self@ == old(self)@,
                        records@ == table,
                        record == table[index as int],
                        table[index as int].alive,
                        arena == Some(area),
                        snapshot_records(input@) == Some(table),
                        input@.len() == PACKAGE_SNAPSHOT_BYTES,
                        (input@[0] == 1 && input@[1] == LEGACY_PACKAGE_RECORDS) || (input@[0] == 2 && input@[1]
                            == MAX_PACKAGE_RECORDS),
                        forall|x: int| 0 <= x < j ==> !((#[trigger] table[x]).alive && table[x].service == record.service),
                    decreases index - j,
                {
                    if records[j].alive && records[j].service == record.service {
                        assert(!records_consistent(table, area.0, area.1)) by {
                            assert(slot_of(table, record.service, 0) != Some(index as int)) by {
                                lemma_slot_of_before(table, record.service, j as int, 0);
                            }
                            assert(table[index as int].alive);
                        }
                        return Err(PackageCatalogError::InvalidRecord);
                    }
                    j += 1;
                }
                proof {
                    lemma_slot_of_first(table, record.service, index as int, 0);
                }
                match validate_record_layout(&record, area, &records, Some(index)) {
                    Err(e) => {
                        assert(!records_consistent(table, area.0, area.1)) by {
                            assert(table[index as int].alive);
                        }
                        return Err(e);
                    },
                    Ok(()) => {},
                }
            }
            index += 1;
        }
        proof {
            match arena {
                Some((lo, hi)) => {
                    assert(records_consistent(table, lo, hi));
                },
                None => {
                    assert(!(exists|x: int| 0 <= x < table.len() && #[trigger] table[x].alive));
                },
            }
        }
        self.records = records;
        Ok(())
    }

    /// Writes the catalog's snapshot at the front of `output`; its length.
    pub fn encode_snapshot(&self, output: &mut [u8]) -> (r: Result<usize, PackageCatalogError>)
        ensures
            if old(output)@.len() < PACKAGE_SNAPSHOT_BYTES {
                r == Err::<usize, PackageCatalogError>(PackageCatalogError::InvalidRequest) && final(output)@
                    == old(output)@
            } else {
                r == Ok::<usize, PackageCatalogError>(PACKAGE_SNAPSHOT_BYTES) && final(output)@ == catalog_wire(self@)
                    + old(output)@.skip(PACKAGE_SNAPSHOT_BYTES as int)
            },
    {
        if output.len() < PACKAGE_SNAPSHOT_BYTES {
            return Err(PackageCatalogError::InvalidRequest);
        }
        let mut bytes: Vec<u8> = Vec::new();
        bytes.push(2);
        bytes.push(MAX_PACKAGE_RECORDS as u8);
        let ghost all = self@;
        let mut i: usize = 0;
        while i < MAX_PACKAGE_RECORDS
            invariant
                i <= MAX_PACKAGE_RECORDS,
                all == self@,
                all.len() == MAX_PACKAGE_RECORDS,
                bytes@ == seq![2u8, MAX_PACKAGE_RECORDS as u8] + joined(all.take(i as int), |r: PackageRecord| package_record_wire(r)),
            decreases MAX_PACKAGE_RECORDS - i,
        {
            let encoded = record_bytes(&self.records[i]);
            let ghost before = bytes@;
            crate::user_snapshot::push_all(&mut bytes, encoded.as_slice());
            proof {
                crate::namespace_snapshot::lemma_joined_push(all.take(i as int), all[i as int], |r: PackageRecord| package_record_wire(r));
                assert(all.take(i as int).push(all[i as int]) =~= all.take(i + 1));
                assert(bytes@ =~= seq![2u8, MAX_PACKAGE_RECORDS as u8] + joined(all.take(i + 1), |r: PackageRecord| package_record_wire(r)));
            }
            i += 1;
        }
        assert(all.take(MAX_PACKAGE_RECORDS as int) =~= all);
        proof {
            lemma_catalog_wire_len(all);
        }
        let ghost original = output@;
        let mut k: usize = 0;
        while k < PACKAGE_SNAPSHOT_BYTES
            invariant
                k <= PACKAGE_SNAPSHOT_BYTES,
                bytes@.len() == PACKAGE_SNAPSHOT_BYTES,
                output@.len() == original.len(),
                original.len() >= PACKAGE_SNAPSHOT_BYTES,
                forall|x: int| 0 <= x < k ==> #[trigger] output@[x] == bytes@[x],
                forall|x: int| k <= x < original.len() ==> #[trigger] output@[x] == original[x],
            decreases PACKAGE_SNAPSHOT_BYTES - k,
        {
            output[k] = bytes[k];
            k += 1;
        }
        assert(output@ =~= catalog_wire(self@) + original.skip(PACKAGE_SNAPSHOT_BYTES as int));
        Ok(PACKAGE_SNAPSHOT_BYTES)
    }

    /// Replays one install record: the package goes to the slot of its
    /// service, or else to the first empty one, once its layout checks.
    pub fn apply_record(&mut self, kind: u16, payload: &[u8], arena: Option<(u64, u64)>) -> (r: Result<
        (),
        PackageCatalogError,
    >)
        requires
            old(self).wf(),
        ensures
            final(self).wf(),
            match install_out(old(self)@, kind, payload@, arena) {
                Err(e) => r == Err::<(), PackageCatalogError>(e) && final(self)@ == old(self)@,
                Ok((slot, record)) => r == Ok::<(), PackageCatalogError>(()) && final(self)@ == old(self)@.update(slot, record),
            },
    {
        if kind != PACKAGE_INSTALL_KIND || payload.len() != PACKAGE_RECORD_BYTES {
            return Err(PackageCatalogError::InvalidRecord);
        }
        let record = match decode_record(payload) {
            Err(e) => return Err(e),
            Ok(record) => record,
        };
        let slot = match self.slot_of(record.service) {
            Some(slot) => slot,
            None => match self.free_slot() {
                Some(slot) => slot,
                None => return Err(PackageCatalogError::Capacity),
            },
        };
        let area = match arena {
            None => return Err(PackageCatalogError::Unsupported),
            Some(area) => area,
        };
        match validate_record_layout(&record, area, &self.records, Some(slot)) {
            Err(e) => return Err(e),
            Ok(()) => {},
        }
        self.records[slot] = record;
        Ok(())
    }
}

pub(crate) proof fn lemma_catalog_wire_len(records: Seq<PackageRecord>)
    requires
        records.len() == MAX_PACKAGE_RECORDS,
    ensures
        catalog_wire(records).len() == PACKAGE_SNAPSHOT_BYTES,
{
    assert forall|r: PackageRecord| #[trigger] package_record_wire(r).len() == PACKAGE_RECORD_BYTES by {
        lemma_joined_len(r.extents@, |e: PackageExtent| package_extent_wire(e), 16);
    }
    lemma_joined_len(records, |r: PackageRecord| package_record_wire(r), PACKAGE_RECORD_BYTES as nat);
}

/// A live slot of `service` before `index` means `index` is not the
/// first.
proof fn lemma_slot_of_before(records: Seq<PackageRecord>, service: ServiceId, j: int, i: int)
    requires
        0 <= i <= j < records.len(),
        records[j].alive && records[j].service == service,
    ensures
        slot_of(records, service, i) matches Some(x) && x <= j,
    decreases j - i,
{
    if !(records[i].alive && records[i].service == service) {
        lemma_slot_of_before(records, service, j, i + 1);
    }
}

/// With no live slot of `service` before `index`, and `index` one, it is
/// the first.
proof fn lemma_slot_of_first(records: Seq<PackageRecord>, service: ServiceId, index: int, i: int)
    requires
        0 <= i <= index < records.len(),
        records[index].alive && records[index].service == service,
        forall|x: int| 0 <= x < index ==> !((#[trigger] records[x]).alive && records[x].service == service),
    ensures
        slot_of(records, service, i) == Some(index),
    decreases index - i,
{
    if i < index {
        lemma_slot_of_first(records, service, index, i + 1);
    }
}

// ----- planning an install -----

/// An install in progress: its service and length, the extents planned
/// for it, and which of its blocks have been written.
pub struct PackageInstall {
    pub(crate) install_id: u32,
    pub(crate) service: ServiceId,
    pub(crate) bytes: u32,
    pub(crate) blocks: u32,
    pub(crate) extents: [PackageExtent; MAX_PACKAGE_EXTENTS],
    pub(crate) extent_count: u8,
    written: [bool; MAX_PACKAGE_BLOCKS],
}

/// The first block at or after `c` below `hi` that no package holds.
pub open spec fn skip_used(records: Seq<PackageRecord>, c: int, hi: int) -> int
    decreases hi - c,
{
    if c >= hi || !block_taken(records, c) {
        c
    } else {
        skip_used(records, c + 1, hi)
    }
}

/// Where the free run from `start` ends, at most `remaining` blocks long.
pub open spec fn free_run_end(records: Seq<PackageRecord>, c: int, hi: int, start: int, remaining: int) -> int
    decreases hi - c,
{
    if c >= hi || block_taken(records, c) || c - start >= remaining {
        c
    } else {
        free_run_end(records, c + 1, hi, start, remaining + 0)
    }
}

proof fn lemma_skip_used(records: Seq<PackageRecord>, c: int, hi: int)
    ensures
        skip_used(records, c, hi) >= c,
        skip_used(records, c, hi) < hi ==> !block_taken(records, skip_used(records, c, hi)),
    decreases hi - c,
{
    if !(c >= hi || !block_taken(records, c)) {
        lemma_skip_used(records, c + 1, hi);
    }
}

proof fn lemma_free_run_end(records: Seq<PackageRecord>, c: int, hi: int, start: int, remaining: int)
    requires
        start <= c,
        c - start <= remaining,
    ensures
        free_run_end(records, c, hi, start, remaining) >= c,
        free_run_end(records, c, hi, start, remaining) - start <= remaining,
        c < hi && !block_taken(records, c) && c - start < remaining ==> free_run_end(records, c, hi, start, remaining) > c,
    decreases hi - c,
{
    if !(c >= hi || block_taken(records, c) || c - start >= remaining) {
        lemma_free_run_end(records, c + 1, hi, start, remaining);
    }
}

/// Extents for `remaining` more blocks from `c` on, first fit over the
/// blocks no package holds: `NoSpace` when the arena runs out, `Capacity`
/// past the extent limit.
pub open spec fn plan_from(records: Seq<PackageRecord>, c: int, hi: int, remaining: int, extents: Seq<PackageExtent>) -> Result<
    Seq<PackageExtent>,
    PackageCatalogError,
>
    decreases hi - c,
{
    if remaining == 0 || c >= hi {
        if remaining != 0 {
            Err(PackageCatalogError::NoSpace)
        } else {
            Ok(extents)
        }
    } else {
        let start = skip_used(records, c, hi);
        let end = free_run_end(records, start, hi, start, remaining);
        if end <= c || end <= start || end > hi {
            Err(PackageCatalogError::NoSpace)
        } else if extents.len() >= MAX_PACKAGE_EXTENTS {
            Err(PackageCatalogError::Capacity)
        } else {
            plan_from(
                records,
                end,
                hi,
                remaining - (end - start),
                extents.push(PackageExtent { start: start as u64, blocks: (end - start) as u32 }),
            )
        }
    }
}

/// What planning an install of `bytes` for `service` gives: its blocks and
/// their extents; `TooLarge` outside the package limits, `Capacity` when
/// the service has no slot and none is free.
pub open spec fn plan_install_out(records: Seq<PackageRecord>, lo: u64, hi: u64, service: ServiceId, bytes: int) -> Result<
    (int, Seq<PackageExtent>),
    PackageCatalogError,
> {
    if bytes < PACKAGE_HEADER_BYTES || bytes > MAX_PACKAGE_BYTES_V2 {
        Err(PackageCatalogError::TooLarge)
    } else if lookup_out(records, service) is None && free_slot(records, 0) is None {
        Err(PackageCatalogError::Capacity)
    } else {
        match plan_from(records, lo as int, hi as int, blocks_of_bytes(bytes), Seq::empty()) {
            Err(e) => Err(e),
            Ok(extents) => Ok((blocks_of_bytes(bytes), extents)),
        }
    }
}

/// The physical block of logical block `index`, walking `extents`.
pub open spec fn block_of(extents: Seq<PackageExtent>, index: int) -> Option<int>
    decreases extents.len(),
{
    if extents.len() == 0 {
        None
    } else if index < extents[0].blocks {
        Some(extents[0].start + index)
    } else {
        block_of(extents.drop_first(), index - extents[0].blocks)
    }
}

impl PackageInstall {
    pub closed spec fn written_view(&self) -> Seq<bool> {
        self.written@
    }

    pub closed spec fn spec_service(&self) -> ServiceId {
        self.service
    }

    pub closed spec fn spec_bytes(&self) -> u32 {
        self.bytes
    }

    pub closed spec fn spec_blocks(&self) -> u32 {
        self.blocks
    }

    pub closed spec fn planned(&self) -> Seq<PackageExtent> {
        self.extents@.take(self.extent_count as int)
    }

    /// The install's blocks fit its bitmap and its extents fit the
    /// address space.
    pub closed spec fn wf(&self) -> bool {
        &&& self.blocks <= MAX_PACKAGE_BLOCKS
        &&& self.extent_count <= MAX_PACKAGE_EXTENTS
        &&& forall|k: int| 0 <= k < self.extent_count ==> extent_end(#[trigger] self.extents@[k]) <= u64::MAX
    }

    pub fn service(&self) -> (r: ServiceId)
        ensures
            r == self.spec_service(),
    {
        self.service
    }

    pub fn bytes(&self) -> (r: usize)
        ensures
            r == self.spec_bytes(),
    {
        self.bytes as usize
    }

    /// Whether a chunk of `length` bytes at `offset` is a whole write: at
    /// a block boundary, one block at most, not empty, within the package.
    pub fn write_offset_valid(&self, offset: usize, length: usize) -> (r: bool)
        ensures
            r == (offset % BLOCK_BYTES == 0 && length != 0 && length <= BLOCK_BYTES && offset + length <= self.spec_bytes()),
    {
        offset % BLOCK_BYTES == 0 && length != 0 && length <= BLOCK_BYTES && offset <= usize::MAX - length && offset
            + length <= self.bytes as usize
    }

    /// Marks the block at `offset` written.
    pub fn mark_written(&mut self, offset: usize)
        requires
            offset / BLOCK_BYTES < MAX_PACKAGE_BLOCKS,
            old(self).wf(),
        ensures
            final(self).wf(),
            final(self).written_view() == old(self).written_view().update((offset / BLOCK_BYTES) as int, true),
            final(self).spec_service() == old(self).spec_service(),
            final(self).spec_bytes() == old(self).spec_bytes(),
            final(self).spec_blocks() == old(self).spec_blocks(),
            final(self).planned() == old(self).planned(),
    {
        self.written[offset / BLOCK_BYTES] = true;
    }

    /// Whether every block of the package has been written.
    pub fn complete(&self) -> (r: bool)
        requires
            self.wf(),
        ensures
            r == (forall|i: int| 0 <= i < self.spec_blocks() ==> #[trigger] self.written_view()[i]),
    {
        let mut i: usize = 0;
        while i < self.blocks as usize
            invariant
                i <= self.blocks <= MAX_PACKAGE_BLOCKS,
                forall|j: int| 0 <= j < i ==> #[trigger] self.written@[j],
            decreases self.blocks - i,
        {
            if !self.written[i] {
                assert(!self.written_view()[i as int]);
                return false;
            }
            i += 1;
        }
        true
    }

    /// The physical block holding logical block `index` of the package.
    pub fn logical_block(&self, index: usize) -> (r: Option<u64>)
        requires
            self.wf(),
        ensures
            r == (if index >= self.spec_blocks() {
                None
            } else {
                match block_of(self.planned(), index as int) {
                    Some(b) => Some(b as u64),
                    None => None,
                }
            }),
    {
        if index >= self.blocks as usize {
            return None;
        }
        walk_extents(&self.extents, self.extent_count as usize, index as u64)
    }
}

/// Walks the first `count` extents for logical block `index`.
fn walk_extents(extents: &[PackageExtent; MAX_PACKAGE_EXTENTS], count: usize, index: u64) -> (r: Option<u64>)
    requires
        count <= MAX_PACKAGE_EXTENTS,
        forall|k: int| 0 <= k < count ==> extent_end(#[trigger] extents@[k]) <= u64::MAX,
    ensures
        r == (match block_of(extents@.take(count as int), index as int) {
            Some(b) => Some(b as u64),
            None => None,
        }),
{
    let mut remaining = index;
    let mut k: usize = 0;
    assert(extents@.take(count as int).skip(0) =~= extents@.take(count as int));
    while k < count
        invariant
            k <= count <= MAX_PACKAGE_EXTENTS,
            forall|x: int| 0 <= x < count ==> extent_end(#[trigger] extents@[x]) <= u64::MAX,
            block_of(extents@.take(count as int), index as int) == block_of(
                extents@.take(count as int).skip(k as int),
                remaining as int,
            ),
        decreases count - k,
    {
        let extent = extents[k];
        let ghost rest = extents@.take(count as int).skip(k as int);
        assert(rest[0] == extent);
        assert(rest.drop_first() =~= extents@.take(count as int).skip(k + 1));
        if remaining < extent.blocks as u64 {
            return Some(extent.start + remaining);
        }
        remaining = remaining - extent.blocks as u64;
        k += 1;
    }
    assert(extents@.take(count as int).skip(k as int) =~= Seq::<PackageExtent>::empty());
    None
}

impl PackageCatalog {
    /// Plans where an install of `bytes` for `service` goes in the package
    /// arena: the first free runs of blocks, in order.
    pub fn plan_install(&self, arena: (u64, u64), service: ServiceId, bytes: usize) -> (r: Result<
        PackageInstall,
        PackageCatalogError,
    >)
        requires
            self.wf(),
        ensures
            match plan_install_out(self@, arena.0, arena.1, service, bytes as int) {
                Err(e) => r == Err::<PackageInstall, PackageCatalogError>(e),
                Ok((blocks, extents)) => r matches Ok(install) && {
                    &&& install.wf()
                    &&& install.spec_service() == service
                    &&& install.spec_bytes() == bytes
                    &&& install.spec_blocks() == blocks
                    &&& install.planned() == extents
                    &&& forall|i: int| 0 <= i < MAX_PACKAGE_BLOCKS ==> !#[trigger] install.written_view()[i]
                },
            },
    {
        if bytes < PACKAGE_HEADER_BYTES || bytes > MAX_PACKAGE_BYTES_V2 {
            return Err(PackageCatalogError::TooLarge);
        }
        if self.lookup(service).is_none() && self.free_slot().is_none() {
            return Err(PackageCatalogError::Capacity);
        }
        let blocks = (bytes + BLOCK_BYTES - 1) / BLOCK_BYTES;
        assert(blocks <= MAX_PACKAGE_BLOCKS);
        let mut extents = [PackageExtent { start: 0, blocks: 0 }; MAX_PACKAGE_EXTENTS];
        let mut count: usize = 0;
        let mut cursor = arena.0;
        let mut remaining = blocks as u64;
        let ghost target = plan_from(self@, arena.0 as int, arena.1 as int, blocks as int, Seq::empty());
        assert(extents@.take(0) =~= Seq::<PackageExtent>::empty());
        while remaining != 0 && cursor < arena.1
            invariant
                self.wf(),
                count <= MAX_PACKAGE_EXTENTS,
                remaining <= blocks <= MAX_PACKAGE_BLOCKS,
                extents@.len() == MAX_PACKAGE_EXTENTS,
                target == plan_from(self@, cursor as int, arena.1 as int, remaining as int, extents@.take(count as int)),
                forall|k: int| 0 <= k < count ==> extent_end(#[trigger] extents@[k]) <= arena.1,
                blocks == blocks_of_bytes(bytes as int),
                plan_install_out(self@, arena.0, arena.1, service, bytes as int) == (match target {
                    Err(e) => Err(e),
                    Ok(ext) => Ok((blocks as int, ext)),
                }),
            decreases arena.1 - cursor,
        {
            let ghost c0 = cursor;
            proof {
                lemma_skip_used(self@, c0 as int, arena.1 as int);
            }
            while cursor < arena.1 && self.block_used(cursor)
                invariant
                    self.wf(),
                    c0 <= cursor <= arena.1,
                    skip_used(self@, c0 as int, arena.1 as int) == skip_used(self@, cursor as int, arena.1 as int),
                decreases arena.1 - cursor,
            {
                cursor += 1;
            }
            let start = cursor;
            proof {
                lemma_free_run_end(self@, start as int, arena.1 as int, start as int, remaining as int);
            }
            while cursor < arena.1 && !self.block_used(cursor) && cursor - start < remaining
                invariant
                    self.wf(),
                    start <= cursor <= arena.1,
                    cursor - start <= remaining,
                    free_run_end(self@, start as int, arena.1 as int, start as int, remaining as int) == free_run_end(
                        self@,
                        cursor as int,
                        arena.1 as int,
                        start as int,
                        remaining as int,
                    ),
                decreases arena.1 - cursor,
            {
                cursor += 1;
            }
            let length = cursor - start;
            proof {
                lemma_free_run_end(self@, start as int, arena.1 as int, start as int, remaining as int);
                assert(skip_used(self@, c0 as int, arena.1 as int) == start);
                assert(free_run_end(self@, start as int, arena.1 as int, start as int, remaining as int) == cursor);
            }
            if length == 0 {
                return Err(PackageCatalogError::NoSpace);
            }
            if count == MAX_PACKAGE_EXTENTS {
                return Err(PackageCatalogError::Capacity);
            }
            let ghost before = extents@.take(count as int);
            extents[count] = PackageExtent { start, blocks: length as u32 };
            count += 1;
            remaining = remaining - length;
            assert(extents@.take(count as int) =~= before.push(PackageExtent { start, blocks: length as u32 }));
        }
        if remaining != 0 {
            return Err(PackageCatalogError::NoSpace);
        }
        proof {
            assert forall|k: int| 0 <= k < count implies extent_end(#[trigger] extents@[k]) <= u64::MAX by {
                assert(extent_end(extents@[k]) <= arena.1);
            }
        }
        Ok(PackageInstall {
            install_id: 0,
            service,
            bytes: bytes as u32,
            blocks: blocks as u32,
            extents,
            extent_count: count as u8,
            written: [false; MAX_PACKAGE_BLOCKS],
        })
    }
}

impl PackageRecord {
    /// The physical block holding logical block `index` of this package.
    pub fn logical_block(&self, index: usize) -> (r: Option<u64>)
        requires
            self.extent_count <= MAX_PACKAGE_EXTENTS,
            forall|k: int| 0 <= k < self.extent_count ==> extent_end(#[trigger] self.extents@[k]) <= u64::MAX,
        ensures
            r == (if index >= blocks_of_bytes(self.bytes as int) {
                None
            } else {
                match block_of(used_by(*self), index as int) {
                    Some(b) => Some(b as u64),
                    None => None,
                }
            }),
    {
        if index as u64 >= (self.bytes as u64 + BLOCK_BYTES as u64 - 1) / BLOCK_BYTES as u64 {
            return None;
        }
        walk_extents(&self.extents, self.extent_count as usize, index as u64)
    }
}

// ----- laws -----

/// A record the snapshot keeps exactly: its extents as its count says,
/// and a live record with a generation and a length in the package
/// limits, an empty one with nothing.
pub open spec fn package_restorable(r: PackageRecord) -> bool {
    let count = r.extent_count as int;
    &&& count <= MAX_PACKAGE_EXTENTS
    &&& forall|k: int|
        0 <= k < MAX_PACKAGE_EXTENTS ==> if k < count {
            (#[trigger] r.extents@[k]).blocks != 0
        } else {
            r.extents@[k] == empty_extent()
        }
    &&& r.alive ==> r.generation != 0 && PACKAGE_HEADER_BYTES <= r.bytes <= MAX_PACKAGE_BYTES_V2
    &&& !r.alive ==> r.generation == 0 && r.bytes == 0 && r.crc32c == 0 && count == 0
}

proof fn lemma_package_record_layout(r: PackageRecord)
    ensures
        package_record_wire(r).len() == PACKAGE_RECORD_BYTES,
        package_record_wire(r)[0] == flag(r.alive),
        package_record_wire(r)[1] == (service_index(r.service) + 1) as u8,
        package_record_wire(r).subrange(4, 8) == le32(r.generation),
        package_record_wire(r).subrange(8, 12) == le32(r.package_version),
        package_record_wire(r).subrange(12, 16) == le32(r.bytes),
        package_record_wire(r).subrange(16, 20) == le32(r.crc32c),
        package_record_wire(r)[20] == r.extent_count,
        package_record_wire(r).subrange(24, 152) == joined(r.extents@, |e: PackageExtent| package_extent_wire(e)),
{
    let fe = |e: PackageExtent| package_extent_wire(e);
    lemma_joined_len(r.extents@, fe, 16);
    let a = seq![flag(r.alive), (service_index(r.service) + 1) as u8, 0u8, 0u8];
    let b = le32(r.generation) + le32(r.package_version) + le32(r.bytes) + le32(r.crc32c);
    let c = seq![r.extent_count, 0u8, 0u8, 0u8];
    let d = joined(r.extents@, fe);
    let w = package_record_wire(r);
    assert(w =~= a + b + c + d);
    assert(w.subrange(4, 8) =~= le32(r.generation));
    assert(w.subrange(8, 12) =~= le32(r.package_version));
    assert(w.subrange(12, 16) =~= le32(r.bytes));
    assert(w.subrange(16, 20) =~= le32(r.crc32c));
    assert(w.subrange(24, 152) =~= d);
}

proof fn lemma_wire_package_extent(r: PackageRecord, k: int)
    requires
        0 <= k < MAX_PACKAGE_EXTENTS,
    ensures
        wire_package_extent(package_record_wire(r), k) == r.extents@[k],
{
    let w = package_record_wire(r);
    let fe = |e: PackageExtent| package_extent_wire(e);
    lemma_package_record_layout(r);
    lemma_joined_at(r.extents@, fe, 16, k);
    let d = joined(r.extents@, fe);
    let at = 24 + 16 * k;
    let x = r.extents@[k];
    assert(w.subrange(at, at + 16) =~= d.subrange(16 * k, 16 * k + 16));
    assert(package_extent_wire(x).subrange(0, 8) =~= le64(x.start));
    assert(package_extent_wire(x).subrange(8, 12) =~= le32(x.blocks));
    assert(w.subrange(at, at + 8) =~= le64(x.start));
    assert(w.subrange(at + 8, at + 12) =~= le32(x.blocks));
    lemma_le64_at(w, at, x.start);
    lemma_le32_at(w, at + 8, x.blocks);
}

/// A record the snapshot keeps exactly reads back as itself.
pub proof fn lemma_package_record_round_trip(r: PackageRecord)
    requires
        package_restorable(r),
    ensures
        package_wire_ok(package_record_wire(r)),
        package_from_wire(package_record_wire(r)) == r,
{
    let w = package_record_wire(r);
    lemma_package_record_layout(r);
    lemma_le32_at(w, 4, r.generation);
    lemma_le32_at(w, 8, r.package_version);
    lemma_le32_at(w, 12, r.bytes);
    lemma_le32_at(w, 16, r.crc32c);
    assert forall|k: int| 0 <= k < MAX_PACKAGE_EXTENTS implies #[trigger] wire_package_extent(w, k) == r.extents@[k] by {
        lemma_wire_package_extent(r, k);
    }
    assert(wire_package_extents(w) =~= r.extents@);
    lemma_array_of(r.extents);
    assert(wire_service(w) == Some(r.service));
    assert(package_from_wire(w) =~= r);
}

/// A catalog whose records the snapshot keeps exactly and which lie well
/// in the arena `lo..hi` reads back from its own snapshot as itself.
pub proof fn lemma_catalog_round_trip(records: Seq<PackageRecord>, lo: u64, hi: u64)
    requires
        catalog_wf(records),
        forall|i: int| 0 <= i < MAX_PACKAGE_RECORDS ==> package_restorable(#[trigger] records[i]),
        records_consistent(records, lo, hi),
    ensures
        restore_catalog_out(catalog_wire(records), Some((lo, hi))) == Ok::<Seq<PackageRecord>, PackageCatalogError>(records),
{
    let input = catalog_wire(records);
    let fr = |r: PackageRecord| package_record_wire(r);
    lemma_catalog_wire_len(records);
    assert forall|r: PackageRecord| #[trigger] fr(r).len() == PACKAGE_RECORD_BYTES by {
        lemma_package_record_layout(r);
    }
    assert forall|i: int| 0 <= i < MAX_PACKAGE_RECORDS implies #[trigger] snapshot_window(input, i) == package_record_wire(
        records[i],
    ) by {
        lemma_joined_at(records, fr, PACKAGE_RECORD_BYTES as nat, i);
        let at = PACKAGE_RECORD_BYTES * i;
        assert(snapshot_window(input, i) =~= joined(records, fr).subrange(at, at + PACKAGE_RECORD_BYTES));
    }
    assert forall|i: int| 0 <= i < MAX_PACKAGE_RECORDS implies package_wire_ok(#[trigger] snapshot_window(input, i))
        && package_from_wire(snapshot_window(input, i)) == records[i] by {
        lemma_package_record_round_trip(records[i]);
    }
    assert(input[0] == 2 && input[1] == MAX_PACKAGE_RECORDS);
    assert(snapshot_records(input) == Some(records)) by {
        assert(Seq::new(MAX_PACKAGE_RECORDS as nat, |i: int| package_from_wire(snapshot_window(input, i))) =~= records);
    }
}

/// An install record that replays is what looking its service up finds
/// afterwards.
pub proof fn lemma_install_then_lookup(
    before: Seq<PackageRecord>,
    kind: u16,
    p: Seq<u8>,
    arena: Option<(u64, u64)>,
    slot: int,
    record: PackageRecord,
)
    requires
        catalog_wf(before),
        install_out(before, kind, p, arena) == Ok::<(int, PackageRecord), PackageCatalogError>((slot, record)),
    ensures
        lookup_out(before.update(slot, record), record.service) == Some(info_of(record)),
{
    let after = before.update(slot, record);
    assert(record.alive);
    match slot_of(before, record.service, 0) {
        Some(i) => {
            lemma_slot_of_found(before, record.service, 0);
            lemma_slot_of_moves(before, after, record.service, 0, i);
        },
        None => {
            lemma_free_slot_found(before, 0);
            lemma_slot_of_none(before, record.service, 0);
            lemma_slot_of_moves(before, after, record.service, 0, slot);
        },
    }
}

proof fn lemma_slot_of_found(records: Seq<PackageRecord>, service: ServiceId, i: int)
    requires
        0 <= i,
    ensures
        slot_of(records, service, i) matches Some(x) ==> i <= x < records.len() && records[x].alive && records[x].service
            == service && forall|y: int| i <= y < x ==> !((#[trigger] records[y]).alive && records[y].service == service),
    decreases records.len() - i,
{
    if i < records.len() && !(records[i].alive && records[i].service == service) {
        lemma_slot_of_found(records, service, i + 1);
    }
}

proof fn lemma_slot_of_none(records: Seq<PackageRecord>, service: ServiceId, i: int)
    requires
        0 <= i,
        slot_of(records, service, i) is None,
    ensures
        forall|y: int| i <= y < records.len() ==> !((#[trigger] records[y]).alive && records[y].service == service),
    decreases records.len() - i,
{
    if i < records.len() {
        lemma_slot_of_none(records, service, i + 1);
    }
}

proof fn lemma_free_slot_found(records: Seq<PackageRecord>, i: int)
    requires
        0 <= i,
    ensures
        free_slot(records, i) matches Some(x) ==> i <= x < records.len() && !records[x].alive,
    decreases records.len() - i,
{
    if i < records.len() && records[i].alive {
        lemma_free_slot_found(records, i + 1);
    }
}

/// With no live slot of `service` before `x` in `after`, and `x` one, the
/// first is `x`.
proof fn lemma_slot_of_moves(before: Seq<PackageRecord>, after: Seq<PackageRecord>, service: ServiceId, i: int, x: int)
    requires
        0 <= i <= x < after.len(),
        after.len() == before.len(),
        after[x].alive && after[x].service == service,
        forall|y: int| i <= y < x ==> !((#[trigger] after[y]).alive && after[y].service == service),
    ensures
        slot_of(after, service, i) == Some(x),
    decreases x - i,
{
    if i < x {
        lemma_slot_of_moves(before, after, service, i + 1, x);
    }
}

} // verus!
