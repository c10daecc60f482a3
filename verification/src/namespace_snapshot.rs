//! The durable snapshot of the object namespace: every slot at a fixed
//! size, then the package catalog's own snapshot, packed in runs of zero
//! and non-zero bytes behind a small header, and read back with every
//! record and link checked.

use vstd::prelude::*;
use crate::acpi::{le_u16, le_u32, le_u64, read_le_u32, read_le_u64_at};
use crate::namespace::{
    CowExtent, NamespaceError, ObjectId, ObjectKind, ObjectNamespace, ObjectRecord, BLOCK_BYTES,
    MAX_COMPONENT_BYTES, MAX_FILE_BYTES, MAX_FILE_EXTENTS, MAX_OBJECTS, kind_byte, kind_of,
    extent_blocks, namespace_wf, fresh_namespace, live_id, component_valid, record_name,
    find_child_out, id_at, root_id,
};
use crate::package_catalog::{
    PackageCatalog, PackageExtent, PackageRecord, catalog_wf, restore_catalog_out, used_extents_of,
    empty_package_record, package_restorable, records_consistent, catalog_wire, lemma_catalog_round_trip,
    lemma_catalog_wire_len,
};
use crate::user_snapshot::{
    le16, le32, le64, zeros, flag, joined, array_of, lemma_array_of, push_le16, push_le32, push_le64,
    push_all, push_zeros, lemma_le16_value, lemma_le32_at, lemma_le64_at, lemma_joined_at,
    lemma_joined_len,
};

verus! {

/// Bytes of a record before its extents.
pub const SNAPSHOT_FIXED_BYTES: usize = 273;
/// An extent on the wire: start, then block count.
pub const EXTENT_WIRE_BYTES: usize = 12;
/// One slot of the table on the wire.
pub const SNAPSHOT_RECORD_BYTES: usize = 8562;
/// The whole table on the wire.
pub const SNAPSHOT_BYTES: usize = 34248;
/// The package catalog's snapshot, carried after the table.
pub const PACKAGE_SNAPSHOT_BYTES: usize = 2434;
/// The table and the package catalog together.
pub const STORAGE_SNAPSHOT_BYTES: usize = 36682;
/// The most metadata blocks a packed snapshot may take.
pub const STORAGE_SNAPSHOT_MAX_BLOCKS: usize = 10;
/// The longest run.
pub const RUN_LIMIT: usize = 256;
/// Where the extents of a record start.
pub const EXTENTS_AT: usize = 274;
/// Where the inline data of a record starts.
pub const DATA_AT: usize = 370;

// ----- the layout -----

pub open spec fn extent_wire(e: CowExtent) -> Seq<u8> {
    le64(e.start) + le32(e.blocks)
}

/// One slot: generation, parent, kind, liveness, name length, the whole
/// name field, length, extent count, every extent, the inline data.
pub open spec fn record_wire(r: ObjectRecord) -> Seq<u8> {
    le32(r.generation) + le16(r.parent.slot) + le32(r.parent.generation) + seq![
        kind_byte(r.kind),
        flag(r.alive),
    ] + le16(r.name_length) + r.name@ + le32(r.length) + seq![r.extent_count] + joined(
        r.extents@,
        |e: CowExtent| extent_wire(e),
    ) + r.data@
}

/// The bytes of a snapshot before packing: every slot, then the package
/// catalog's snapshot.
pub open spec fn raw_snapshot(ns: Seq<ObjectRecord>, packages: Seq<u8>) -> Seq<u8> {
    joined(ns, |r: ObjectRecord| record_wire(r)) + packages
}

// ----- packing -----

/// How far the run that starts at `at` reaches, `j` of its bytes being
/// known: bytes that are all zero or all not, at most `RUN_LIMIT`.
pub open spec fn run_from(s: Seq<u8>, at: int, j: int) -> int
    decreases RUN_LIMIT - j,
{
    if j >= RUN_LIMIT || at + j >= s.len() || (s[at + j] == 0) != (s[at] == 0) {
        j
    } else {
        run_from(s, at, j + 1)
    }
}

pub proof fn lemma_run_from(s: Seq<u8>, at: int, j: int)
    requires
        0 <= at,
        1 <= j <= RUN_LIMIT,
        at + j <= s.len(),
        forall|k: int| at <= k < at + j ==> (#[trigger] s[k] == 0) == (s[at] == 0),
    ensures
        j <= run_from(s, at, j) <= RUN_LIMIT,
        at + run_from(s, at, j) <= s.len(),
        forall|k: int| at <= k < at + run_from(s, at, j) ==> (#[trigger] s[k] == 0) == (s[at] == 0),
    decreases RUN_LIMIT - j,
{
    if !(j >= RUN_LIMIT || at + j >= s.len() || (s[at + j] == 0) != (s[at] == 0)) {
        lemma_run_from(s, at, j + 1);
    }
}

/// One run: a byte telling literal from zero, the length, and the bytes
/// of a literal run.
pub open spec fn run_wire(s: Seq<u8>, at: int, n: int) -> Seq<u8> {
    seq![flag(s[at] != 0)] + le16(n as u16) + (if s[at] == 0 {
        Seq::empty()
    } else {
        s.subrange(at, at + n)
    })
}

/// The runs of `s` from `at` on.
pub open spec fn runs(s: Seq<u8>, at: int) -> Seq<u8>
    decreases s.len() - at,
{
    if at < 0 || at >= s.len() {
        Seq::empty()
    } else {
        let n = run_from(s, at, 1);
        if n < 1 || at + n > s.len() {
            Seq::empty()
        } else {
            run_wire(s, at, n) + runs(s, at + n)
        }
    }
}

/// A packed snapshot: its unpacked length, its own length, the runs.
pub open spec fn packed_snapshot(raw: Seq<u8>) -> Seq<u8> {
    le32(STORAGE_SNAPSHOT_BYTES as u32) + le32((8 + runs(raw, 0).len()) as u32) + runs(raw, 0)
}

/// The blocks a packed snapshot of `len` bytes takes.
pub open spec fn blocks_for(len: int) -> int {
    (len + BLOCK_BYTES - 1) / BLOCK_BYTES as int
}

/// What goes to the metadata blocks: the packed snapshot padded with
/// zeros to whole blocks; `TooLarge` past the most blocks.
pub open spec fn metadata_out(raw: Seq<u8>) -> Result<Seq<u8>, NamespaceError> {
    let packed = packed_snapshot(raw);
    let blocks = blocks_for(packed.len() as int);
    if blocks > STORAGE_SNAPSHOT_MAX_BLOCKS {
        Err(NamespaceError::TooLarge)
    } else {
        Ok(packed + zeros((blocks * BLOCK_BYTES - packed.len()) as nat))
    }
}

fn push_extent(v: &mut Vec<u8>, e: CowExtent)
    ensures
        final(v)@ == old(v)@ + extent_wire(e),
{
    push_le64(v, e.start);
    push_le32(v, e.blocks);
    assert(v@ =~= old(v)@ + extent_wire(e));
}

fn push_record(v: &mut Vec<u8>, r: &ObjectRecord)
    ensures
        final(v)@ == old(v)@ + record_wire(*r),
{
    let ghost start = v@;
    push_le32(v, r.generation);
    push_le16(v, r.parent.slot);
    push_le32(v, r.parent.generation);
    v.push(if r.kind == ObjectKind::File { 1u8 } else { 2u8 });
    v.push(if r.alive { 1u8 } else { 0u8 });
    push_le16(v, r.name_length);
    push_all(v, &r.name);
    push_le32(v, r.length);
    v.push(r.extent_count);
    let ghost before_extents = v@;
    let mut k: usize = 0;
    while k < MAX_FILE_EXTENTS
        invariant
            k <= MAX_FILE_EXTENTS,
            v@ == before_extents + joined(r.extents@.take(k as int), |e: CowExtent| extent_wire(e)),
        decreases MAX_FILE_EXTENTS - k,
    {
        push_extent(v, r.extents[k]);
        proof {
            lemma_joined_push(r.extents@.take(k as int), r.extents@[k as int], |e: CowExtent| extent_wire(e));
            assert(r.extents@.take(k as int).push(r.extents@[k as int]) =~= r.extents@.take(k + 1));
        }
        k += 1;
    }
    assert(r.extents@.take(MAX_FILE_EXTENTS as int) =~= r.extents@);
    push_all(v, &r.data);
    assert(v@ =~= start + record_wire(*r));
}

/// Joining one more element adds its bytes at the end.
pub proof fn lemma_joined_push<T>(s: Seq<T>, x: T, f: spec_fn(T) -> Seq<u8>)
    ensures
        joined(s.push(x), f) == joined(s, f) + f(x),
    decreases s.len(),
{
    if s.len() == 0 {
        assert(s.push(x).drop_first() =~= Seq::<T>::empty());
        assert(joined(s.push(x).drop_first(), f) == Seq::<u8>::empty());
        assert(joined(s, f) == Seq::<u8>::empty());
        assert(joined(s.push(x), f) =~= f(x));
    } else {
        lemma_joined_push(s.drop_first(), x, f);
        assert(s.push(x).drop_first() =~= s.drop_first().push(x));
        assert(joined(s.push(x), f) =~= joined(s, f) + f(x));
    }
}

/// The bytes of the table's snapshot before packing.
pub fn snapshot_source(ns: &ObjectNamespace, packages: &[u8]) -> (r: Vec<u8>)
    ensures
        r@ == raw_snapshot(ns@, packages@),
{
    let mut v: Vec<u8> = Vec::new();
    let mut i: usize = 0;
    let first = ns.record_at(0);
    let ghost table = ns@;
    assert(*first == table[0]);
    while i < MAX_OBJECTS
        invariant
            i <= MAX_OBJECTS,
            table == ns@,
            table.len() == MAX_OBJECTS,
            v@ == joined(table.take(i as int), |r: ObjectRecord| record_wire(r)),
        decreases MAX_OBJECTS - i,
    {
        let record = ns.record_at(i);
        push_record(&mut v, record);
        proof {
            lemma_joined_push(table.take(i as int), table[i as int], |r: ObjectRecord| record_wire(r));
            assert(table.take(i as int).push(table[i as int]) =~= table.take(i + 1));
        }
        i += 1;
    }
    assert(table.take(MAX_OBJECTS as int) =~= table);
    push_all(&mut v, packages);
    v
}


pub proof fn lemma_record_wire_len(r: ObjectRecord)
    ensures
        record_wire(r).len() == SNAPSHOT_RECORD_BYTES,
{
    lemma_joined_len(r.extents@, |e: CowExtent| extent_wire(e), EXTENT_WIRE_BYTES as nat);
}

pub proof fn lemma_raw_snapshot_len(ns: Seq<ObjectRecord>, packages: Seq<u8>)
    requires
        ns.len() == MAX_OBJECTS,
        packages.len() == PACKAGE_SNAPSHOT_BYTES,
    ensures
        joined(ns, |r: ObjectRecord| record_wire(r)).len() == SNAPSHOT_BYTES,
        raw_snapshot(ns, packages).len() == STORAGE_SNAPSHOT_BYTES,
{
    assert forall|r: ObjectRecord| #[trigger] record_wire(r).len() == SNAPSHOT_RECORD_BYTES by {
        lemma_record_wire_len(r);
    }
    lemma_joined_len(ns, |r: ObjectRecord| record_wire(r), SNAPSHOT_RECORD_BYTES as nat);
}

pub(crate) fn push_range(v: &mut Vec<u8>, s: &[u8], from: usize, to: usize)
    requires
        from <= to <= s@.len(),
    ensures
        final(v)@ == old(v)@ + s@.subrange(from as int, to as int),
{
    let mut i: usize = from;
    while i < to
        invariant
            from <= i <= to,
            to <= s@.len(),
            v@ == old(v)@ + s@.subrange(from as int, i as int),
        decreases to - i,
    {
        v.push(s[i]);
        i += 1;
        assert(v@ =~= old(v)@ + s@.subrange(from as int, i as int));
    }
}

/// The length of the run that starts at `at`.
fn run_length(raw: &[u8], at: usize) -> (n: usize)
    requires
        at < raw@.len(),
    ensures
        n == run_from(raw@, at as int, 1),
        1 <= n <= RUN_LIMIT,
        at + n <= raw@.len(),
        forall|k: int| at <= k < at + n ==> (#[trigger] raw@[k] == 0) == (raw@[at as int] == 0),
{
    let zero = raw[at] == 0;
    let mut j: usize = 1;
    while j < RUN_LIMIT && j < raw.len() - at && (raw[at + j] == 0) == zero
        invariant
            1 <= j <= RUN_LIMIT,
            at + j <= raw@.len(),
            zero == (raw@[at as int] == 0),
            run_from(raw@, at as int, j as int) == run_from(raw@, at as int, 1),
            forall|k: int| at <= k < at + j ==> (#[trigger] raw@[k] == 0) == (raw@[at as int] == 0),
        decreases RUN_LIMIT - j,
    {
        j += 1;
    }
    j
}

/// The runs of a snapshot before packing, behind their header.
pub fn pack_snapshot(raw: &[u8]) -> (r: Vec<u8>)
    requires
        raw@.len() == STORAGE_SNAPSHOT_BYTES,
    ensures
        r@ == packed_snapshot(raw@),
        r@.len() <= 8 + 4 * STORAGE_SNAPSHOT_BYTES,
{
    let mut body: Vec<u8> = Vec::new();
    let mut at: usize = 0;
    while at < raw.len()
        invariant
            at <= raw@.len(),
            raw@.len() == STORAGE_SNAPSHOT_BYTES,
            runs(raw@, 0) == body@ + runs(raw@, at as int),
            body@.len() <= 4 * at,
        decreases raw@.len() - at,
    {
        let n = run_length(raw, at);
        let ghost before = body@;
        if raw[at] == 0 {
            body.push(0);
            push_le16(&mut body, n as u16);
        } else {
            body.push(1);
            push_le16(&mut body, n as u16);
            push_range(&mut body, raw, at, at + n);
        }
        assert(body@ =~= before + run_wire(raw@, at as int, n as int));
        assert(runs(raw@, at as int) == run_wire(raw@, at as int, n as int) + runs(raw@, at + n));
        assert(runs(raw@, 0) =~= body@ + runs(raw@, at + n));
        at += n;
    }
    let mut out: Vec<u8> = Vec::new();
    push_le32(&mut out, STORAGE_SNAPSHOT_BYTES as u32);
    push_le32(&mut out, (8 + body.len()) as u32);
    push_all(&mut out, &body);
    assert(runs(raw@, 0) =~= body@);
    out
}

/// What goes to the metadata blocks for a table and a package catalog
/// snapshot: the packed snapshot padded to whole blocks, or `TooLarge`.
pub fn encode_storage_snapshot(ns: &ObjectNamespace, packages: &[u8]) -> (r: Result<Vec<u8>, NamespaceError>)
    requires
        packages@.len() == PACKAGE_SNAPSHOT_BYTES,
    ensures
        match r {
            Ok(v) => metadata_out(raw_snapshot(ns@, packages@)) == Ok::<Seq<u8>, NamespaceError>(v@),
            Err(e) => metadata_out(raw_snapshot(ns@, packages@)) == Err::<Seq<u8>, NamespaceError>(e),
        },
{
    let raw = snapshot_source(ns, packages);
    let _first = ns.record_at(0);
    proof {
        lemma_raw_snapshot_len(ns@, packages@);
    }
    let mut packed = pack_snapshot(&raw);
    let blocks = (packed.len() + BLOCK_BYTES - 1) / BLOCK_BYTES;
    if blocks > STORAGE_SNAPSHOT_MAX_BLOCKS {
        return Err(NamespaceError::TooLarge);
    }
    let padding = blocks * BLOCK_BYTES - packed.len();
    push_zeros(&mut packed, padding);
    Ok(packed)
}


// ----- unpacking -----

/// What the runs from `pos` on unpack to, `produced` bytes being out
/// already, the packed snapshot ending at `end`: the bytes that come out
/// before the runs end or go wrong, and whether they ended cleanly at
/// `end`. A run of no bytes, a run header past `end`, output past the
/// snapshot's length, or a literal past the blocks goes wrong.
pub open spec fn unpack_from(m: Seq<u8>, end: int, pos: int, produced: int) -> (Seq<u8>, bool)
    decreases end - pos,
{
    if pos >= end {
        (Seq::empty(), pos == end)
    } else if pos + 3 > end {
        (Seq::empty(), false)
    } else {
        let n = le_u16(m, pos + 1);
        let room = STORAGE_SNAPSHOT_BYTES - produced;
        if n == 0 {
            (Seq::empty(), false)
        } else if m[pos] != 0 {
            let avail = m.len() - (pos + 3);
            if n > room || n > avail {
                let k = if room < avail {
                    room
                } else {
                    avail
                };
                (m.subrange(pos + 3, pos + 3 + k), false)
            } else if pos + 3 + n > end {
                (m.subrange(pos + 3, pos + 3 + n), false)
            } else {
                let rest = unpack_from(m, end, pos + 3 + n, produced + n);
                (m.subrange(pos + 3, pos + 3 + n) + rest.0, rest.1)
            }
        } else if n > room {
            (zeros(room as nat), false)
        } else {
            let rest = unpack_from(m, end, pos + 3, produced + n);
            (zeros(n as nat) + rest.0, rest.1)
        }
    }
}

/// The packed snapshot held in `m`: it says it unpacks to a storage
/// snapshot, and its own length lies between its header and the end of
/// the blocks.
pub open spec fn packed_header_ok(m: Seq<u8>) -> bool {
    &&& m.len() >= 8
    &&& le_u32(m, 0) == STORAGE_SNAPSHOT_BYTES
    &&& 8 <= le_u32(m, 4) <= m.len()
}

/// What the packed snapshot in `m` unpacks to.
pub open spec fn unpacked(m: Seq<u8>) -> (Seq<u8>, bool) {
    unpack_from(m, le_u32(m, 4), 8, 0)
}

/// Unpacks the runs of the packed snapshot in `m`, which ends at `end`.
fn unpack_runs(m: &[u8], end: usize) -> (r: (Vec<u8>, bool))
    requires
        8 <= end <= m@.len(),
    ensures
        (r.0@, r.1) == unpack_from(m@, end as int, 8, 0),
        r.0@.len() <= STORAGE_SNAPSHOT_BYTES,
{
    let mut out: Vec<u8> = Vec::new();
    let mut pos: usize = 8;
    while pos != end
        invariant
            8 <= pos <= end <= m@.len(),
            out@.len() <= STORAGE_SNAPSHOT_BYTES,
            unpack_from(m@, end as int, 8, 0) == (
                out@ + unpack_from(m@, end as int, pos as int, out@.len() as int).0,
                unpack_from(m@, end as int, pos as int, out@.len() as int).1,
            ),
        decreases end - pos,
    {
        let ghost before = out@;
        let ghost tail = unpack_from(m@, end as int, pos as int, out@.len() as int);
        if end - pos < 3 {
            assert(tail == (Seq::<u8>::empty(), false));
            assert(before + tail.0 =~= before);
            return (out, false);
        }
        let n = m[pos + 1] as usize + m[pos + 2] as usize * 256;
        let room = STORAGE_SNAPSHOT_BYTES - out.len();
        if n == 0 {
            assert(before + tail.0 =~= before);
            return (out, false);
        }
        if m[pos] != 0 {
            let avail = m.len() - (pos + 3);
            if n > room || n > avail {
                let k = if room < avail { room } else { avail };
                push_range(&mut out, m, pos + 3, pos + 3 + k);
                return (out, false);
            }
            push_range(&mut out, m, pos + 3, pos + 3 + n);
            if n > end - (pos + 3) {
                return (out, false);
            }
            let ghost rest = unpack_from(m@, end as int, pos + 3 + n, out@.len() as int);
            assert(tail.0 == m@.subrange(pos + 3, pos + 3 + n) + rest.0);
            assert(before + tail.0 =~= out@ + rest.0);
            pos = pos + 3 + n;
        } else {
            if n > room {
                push_zeros(&mut out, room);
                return (out, false);
            }
            push_zeros(&mut out, n);
            let ghost rest = unpack_from(m@, end as int, pos + 3, out@.len() as int);
            assert(tail.0 == zeros(n as nat) + rest.0);
            assert(before + tail.0 =~= out@ + rest.0);
            pos = pos + 3;
        }
    }
    assert(out@ + Seq::<u8>::empty() =~= out@);
    (out, true)
}


// ----- reading a slot -----

/// Extent `k` of a slot's bytes.
pub open spec fn wire_extent(w: Seq<u8>, k: int) -> CowExtent {
    CowExtent {
        start: le_u64(w, EXTENTS_AT + EXTENT_WIRE_BYTES * k) as u64,
        blocks: le_u32(w, EXTENTS_AT + EXTENT_WIRE_BYTES * k + 8) as u32,
    }
}

pub open spec fn wire_extents(w: Seq<u8>) -> Seq<CowExtent> {
    Seq::new(MAX_FILE_EXTENTS as nat, |k: int| wire_extent(w, k))
}

/// The bytes of a slot make a record: a parent generation that is not
/// zero, a known kind, a liveness flag, a name length within the field,
/// an extent count within its limit with exactly that many extents of
/// some blocks and none after, and a length within the inline data for a
/// slot without extents. A slot with extents must be read into one that
/// held a file, and its length must fit them.
pub open spec fn record_wire_ok(w: Seq<u8>, prior: ObjectKind) -> bool {
    let count = w[273] as int;
    &&& le_u32(w, 6) != 0
    &&& (w[10] == 1 || w[10] == 2)
    &&& w[11] <= 1
    &&& le_u16(w, 12) <= MAX_COMPONENT_BYTES
    &&& count <= MAX_FILE_EXTENTS
    &&& forall|k: int|
        0 <= k < MAX_FILE_EXTENTS ==> if k < count {
            (#[trigger] wire_extent(w, k)).blocks != 0
        } else {
            wire_extent(w, k) == (CowExtent { start: 0, blocks: 0 })
        }
    &&& count == 0 ==> le_u32(w, 269) <= MAX_FILE_BYTES
    &&& count != 0 ==> prior == ObjectKind::File && le_u32(w, 269) <= extent_blocks(wire_extents(w).take(count))
        * BLOCK_BYTES
}

/// The record a slot's bytes describe.
pub open spec fn record_from_wire(w: Seq<u8>) -> ObjectRecord {
    ObjectRecord {
        generation: le_u32(w, 0) as u32,
        parent: ObjectId { slot: le_u16(w, 4) as u16, generation: le_u32(w, 6) as u32 },
        kind: kind_of(w[10]),
        alive: w[11] == 1,
        name_length: le_u16(w, 12) as u16,
        name: array_of(w.subrange(14, 269)),
        length: le_u32(w, 269) as u32,
        extent_count: w[273],
        extents: array_of(wire_extents(w)),
        data: array_of(w.subrange(DATA_AT as int, SNAPSHOT_RECORD_BYTES as int)),
    }
}

fn read_le_u16(b: &[u8], at: usize) -> (r: u16)
    requires
        at + 2 <= b@.len(),
    ensures
        r == le_u16(b@, at as int),
{
    b[at] as u16 + b[at + 1] as u16 * 256
}

fn copy_name(w: &[u8]) -> (r: [u8; MAX_COMPONENT_BYTES])
    requires
        w@.len() == SNAPSHOT_RECORD_BYTES,
    ensures
        r@ == w@.subrange(14, 269),
{
    let mut r = [0u8; MAX_COMPONENT_BYTES];
    let mut i: usize = 0;
    while i < MAX_COMPONENT_BYTES
        invariant
            i <= MAX_COMPONENT_BYTES,
            w@.len() == SNAPSHOT_RECORD_BYTES,
            r@.len() == MAX_COMPONENT_BYTES,
            forall|j: int| 0 <= j < i ==> #[trigger] r@[j] == w@[14 + j],
        decreases MAX_COMPONENT_BYTES - i,
    {
        r[i] = w[14 + i];
        i += 1;
    }
    assert(r@ =~= w@.subrange(14, 269));
    r
}

fn copy_data(w: &[u8]) -> (r: [u8; MAX_FILE_BYTES])
    requires
        w@.len() == SNAPSHOT_RECORD_BYTES,
    ensures
        r@ == w@.subrange(DATA_AT as int, SNAPSHOT_RECORD_BYTES as int),
{
    let mut r = [0u8; MAX_FILE_BYTES];
    let mut i: usize = 0;
    while i < MAX_FILE_BYTES
        invariant
            i <= MAX_FILE_BYTES,
            w@.len() == SNAPSHOT_RECORD_BYTES,
            r@.len() == MAX_FILE_BYTES,
            forall|j: int| 0 <= j < i ==> #[trigger] r@[j] == w@[DATA_AT + j],
        decreases MAX_FILE_BYTES - i,
    {
        r[i] = w[DATA_AT + i];
        i += 1;
    }
    assert(r@ =~= w@.subrange(DATA_AT as int, SNAPSHOT_RECORD_BYTES as int));
    r
}

proof fn lemma_extent_blocks_bound(extents: Seq<CowExtent>)
    ensures
        0 <= extent_blocks(extents) <= extents.len() * 0xffff_ffff,
    decreases extents.len(),
{
    if extents.len() > 0 {
        lemma_extent_blocks_bound(extents.drop_last());
    }
}

proof fn lemma_extent_blocks_take(extents: Seq<CowExtent>, i: int)
    requires
        0 <= i < extents.len(),
    ensures
        extent_blocks(extents.take(i + 1)) == extent_blocks(extents.take(i)) + extents[i].blocks,
{
    assert(extents.take(i + 1).drop_last() =~= extents.take(i));
}

/// Reads one slot of the table from its bytes, into a slot that held a
/// record of kind `prior`.
pub fn read_snapshot_record(w: &[u8], prior: ObjectKind) -> (r: Result<ObjectRecord, NamespaceError>)
    requires
        w@.len() == SNAPSHOT_RECORD_BYTES,
    ensures
        match r {
            Ok(record) => record_wire_ok(w@, prior) && record == record_from_wire(w@),
            Err(e) => !record_wire_ok(w@, prior) && e == NamespaceError::InvalidRecord,
        },
{
    let generation = read_le_u32(w, 0);
    let slot = read_le_u16(w, 4);
    let parent_generation = read_le_u32(w, 6);
    if parent_generation == 0 {
        return Err(NamespaceError::InvalidRecord);
    }
    let kind = if w[10] == 1 {
        ObjectKind::File
    } else if w[10] == 2 {
        ObjectKind::Directory
    } else {
        return Err(NamespaceError::InvalidRecord);
    };
    let alive = w[11];
    if alive > 1 {
        return Err(NamespaceError::InvalidRecord);
    }
    let name_length = read_le_u16(w, 12);
    if name_length as usize > MAX_COMPONENT_BYTES {
        return Err(NamespaceError::InvalidRecord);
    }
    let length = read_le_u32(w, 269);
    let count = w[273] as usize;
    if count > MAX_FILE_EXTENTS {
        return Err(NamespaceError::InvalidRecord);
    }
    let mut extents = [CowExtent { start: 0, blocks: 0 }; MAX_FILE_EXTENTS];
    let mut total: u64 = 0;
    let mut k: usize = 0;
    while k < MAX_FILE_EXTENTS
        invariant
            k <= MAX_FILE_EXTENTS,
            w@.len() == SNAPSHOT_RECORD_BYTES,
            count == w@[273],
            count <= MAX_FILE_EXTENTS,
            extents@.len() == MAX_FILE_EXTENTS,
            forall|j: int| 0 <= j < k ==> #[trigger] extents@[j] == wire_extent(w@, j),
            forall|j: int|
                0 <= j < k ==> if j < count {
                    (#[trigger] wire_extent(w@, j)).blocks != 0
                } else {
                    wire_extent(w@, j) == (CowExtent { start: 0, blocks: 0 })
                },
            total == extent_blocks(wire_extents(w@).take(if k < count { k as int } else { count as int })),
            total <= k * 0xffff_ffff,
        decreases MAX_FILE_EXTENTS - k,
    {
        let at = EXTENTS_AT + EXTENT_WIRE_BYTES * k;
        let start = read_le_u64_at(w, at);
        let blocks = read_le_u32(w, at + 8);
        let extent = CowExtent { start, blocks };
        assert(extent == wire_extent(w@, k as int));
        if k < count {
            if blocks == 0 {
                return Err(NamespaceError::InvalidRecord);
            }
            proof {
                lemma_extent_blocks_take(wire_extents(w@), k as int);
            }
            total = total + blocks as u64;
        } else if start != 0 || blocks != 0 {
            return Err(NamespaceError::InvalidRecord);
        }
        extents[k] = extent;
        k += 1;
    }
    assert(total == extent_blocks(wire_extents(w@).take(count as int)));
    if count == 0 && length as usize > MAX_FILE_BYTES {
        return Err(NamespaceError::InvalidRecord);
    }
    if count != 0 && (prior != ObjectKind::File || length as u64 > total * (BLOCK_BYTES as u64)) {
        return Err(NamespaceError::InvalidRecord);
    }
    let name = copy_name(w);
    let data = copy_data(w);
    let record = ObjectRecord {
        generation,
        parent: ObjectId { slot, generation: parent_generation },
        kind,
        alive: alive == 1,
        name_length,
        name,
        length,
        extent_count: count as u8,
        extents,
        data,
    };
    proof {
        lemma_array_of(name);
        lemma_array_of(data);
        assert(extents@ =~= wire_extents(w@));
        lemma_array_of(extents);
    }
    Ok(record)
}


// ----- checking what was read -----

/// The kind a slot holds before a snapshot is read into it: the root
/// directory in slot 0, empty files elsewhere.
pub open spec fn prior_kind(slot: int) -> ObjectKind {
    if slot == 0 {
        ObjectKind::Directory
    } else {
        ObjectKind::File
    }
}

/// The bytes of slot `i` in an unpacked snapshot.
pub open spec fn slot_wire(out: Seq<u8>, i: int) -> Seq<u8> {
    out.subrange(SNAPSHOT_RECORD_BYTES * i, SNAPSHOT_RECORD_BYTES * i + SNAPSHOT_RECORD_BYTES)
}

pub open spec fn slots_ok(out: Seq<u8>) -> bool {
    forall|i: int| 0 <= i < MAX_OBJECTS ==> record_wire_ok(#[trigger] slot_wire(out, i), prior_kind(i))
}

pub open spec fn slots_of(out: Seq<u8>) -> Seq<ObjectRecord> {
    Seq::new(MAX_OBJECTS as nat, |i: int| record_from_wire(slot_wire(out, i)))
}

pub open spec fn root_ok(ns: Seq<ObjectRecord>) -> bool {
    ns[0].generation == 1 && ns[0].alive && ns[0].kind == ObjectKind::Directory
}

/// Whether walking up the parents from `current`, looking at most `fuel`
/// times, meets the root; `Stale` where a parent on the way is not live.
pub open spec fn reaches_root(ns: Seq<ObjectRecord>, current: ObjectId, fuel: nat) -> Result<bool, NamespaceError>
    decreases fuel,
{
    if fuel == 0 {
        Ok(false)
    } else if current == root_id() {
        Ok(true)
    } else if !live_id(ns, current) {
        Err(NamespaceError::Stale)
    } else {
        reaches_root(ns, ns[current.slot as int].parent, (fuel - 1) as nat)
    }
}

/// The links of the live object in slot `i`: a valid name, a live parent
/// directory in which the name finds this object, and a way up to the
/// root.
pub open spec fn link_check(ns: Seq<ObjectRecord>, i: int) -> Result<(), NamespaceError> {
    let r = ns[i];
    if !component_valid(record_name(r)) {
        Err(NamespaceError::InvalidName)
    } else if !live_id(ns, r.parent) {
        Err(NamespaceError::Stale)
    } else if ns[r.parent.slot as int].kind != ObjectKind::Directory || find_child_out(ns, r.parent, record_name(r))
        != Ok::<Option<ObjectId>, NamespaceError>(Some(id_at(ns, i))) {
        Err(NamespaceError::InvalidRecord)
    } else {
        match reaches_root(ns, id_at(ns, i), (MAX_OBJECTS + 1) as nat) {
            Ok(true) => Ok(()),
            Ok(false) => Err(NamespaceError::InvalidRecord),
            Err(e) => Err(e),
        }
    }
}

/// The links of the live objects from slot `i` on, the first that fails
/// deciding.
pub open spec fn links_from(ns: Seq<ObjectRecord>, i: int) -> Result<(), NamespaceError>
    decreases MAX_OBJECTS - i,
{
    if i < 0 || i >= MAX_OBJECTS {
        Ok(())
    } else if !ns[i].alive {
        links_from(ns, i + 1)
    } else {
        match link_check(ns, i) {
            Err(e) => Err(e),
            Ok(()) => links_from(ns, i + 1),
        }
    }
}

pub open spec fn has_extents(r: ObjectRecord) -> bool {
    r.alive && r.extent_count != 0
}

/// A live object with extents is a file within them.
pub open spec fn shape_ok(r: ObjectRecord) -> bool {
    has_extents(r) ==> {
        &&& r.kind == ObjectKind::File
        &&& r.extent_count <= MAX_FILE_EXTENTS
        &&& r.length <= extent_blocks(r.extents@.take(r.extent_count as int)) * BLOCK_BYTES
    }
}

pub open spec fn record_extents(r: ObjectRecord) -> Seq<CowExtent> {
    if has_extents(r) {
        r.extents@.take(r.extent_count as int)
    } else {
        Seq::empty()
    }
}

/// The extents of the live objects, slot by slot.
pub open spec fn live_extents(ns: Seq<ObjectRecord>) -> Seq<CowExtent>
    decreases ns.len(),
{
    if ns.len() == 0 {
        Seq::empty()
    } else {
        live_extents(ns.drop_last()) + record_extents(ns.last())
    }
}

pub open spec fn extent_end(e: CowExtent) -> int {
    e.start + e.blocks
}

pub open spec fn overlap(a: CowExtent, b: CowExtent) -> bool {
    a.start < extent_end(b) && b.start < extent_end(a)
}

/// Every live object with extents is a file within them, every extent
/// lies in the data arena, and no two extents share a block.
pub open spec fn extents_ok(ns: Seq<ObjectRecord>, lo: u64, hi: u64) -> bool {
    let all = live_extents(ns);
    &&& forall|i: int| 0 <= i < ns.len() ==> shape_ok(#[trigger] ns[i])
    &&& forall|a: int| 0 <= a < all.len() ==> lo <= (#[trigger] all[a]).start && extent_end(all[a]) <= hi
    &&& forall|a: int, b: int| 0 <= a < b < all.len() ==> !overlap(#[trigger] all[a], #[trigger] all[b])
}

/// What reading the metadata blocks back gives: `None` where nothing was
/// stored, else the table and the package catalog's snapshot. `Recovery`
/// for too many blocks; `InvalidRecord` for a bad header, a packed stream
/// that does not unpack to whole slots, a slot that does not read, a
/// missing root, extents out of place, or a stream that does not end
/// exactly at its length; `InvalidName` or `Stale` as the first bad link
/// says.
pub open spec fn restore_out(blocks: u32, m: Seq<u8>, lo: u64, hi: u64) -> Result<
    Option<(Seq<ObjectRecord>, Seq<u8>)>,
    NamespaceError,
> {
    if blocks == 0 || (blocks == 1 && m.take(8) == zeros(8)) {
        Ok(None)
    } else if blocks > STORAGE_SNAPSHOT_MAX_BLOCKS {
        Err(NamespaceError::Recovery)
    } else if !packed_header_ok(m) {
        Err(NamespaceError::InvalidRecord)
    } else {
        let out = unpacked(m).0;
        if out.len() < SNAPSHOT_BYTES || !slots_ok(out) {
            Err(NamespaceError::InvalidRecord)
        } else {
            let ns = slots_of(out);
            if !root_ok(ns) {
                Err(NamespaceError::InvalidRecord)
            } else {
                match links_from(ns, 1) {
                    Err(e) => Err(e),
                    Ok(()) => if !extents_ok(ns, lo, hi) {
                        Err(NamespaceError::InvalidRecord)
                    } else if !unpacked(m).1 || out.len() != STORAGE_SNAPSHOT_BYTES {
                        Err(NamespaceError::InvalidRecord)
                    } else {
                        Ok(Some((ns, out.subrange(SNAPSHOT_BYTES as int, STORAGE_SNAPSHOT_BYTES as int))))
                    },
                }
            }
        }
    }
}


fn reach_root(ns: &ObjectNamespace, start: ObjectId) -> (r: Result<bool, NamespaceError>)
    requires
        ns.wf(),
    ensures
        r == reaches_root(ns@, start, (MAX_OBJECTS + 1) as nat),
{
    let mut current = start;
    let mut fuel: usize = MAX_OBJECTS + 1;
    while fuel > 0
        invariant
            ns.wf(),
            fuel <= MAX_OBJECTS + 1,
            reaches_root(ns@, start, (MAX_OBJECTS + 1) as nat) == reaches_root(ns@, current, fuel as nat),
        decreases fuel,
    {
        if current == (ObjectId { slot: 0, generation: 1 }) {
            return Ok(true);
        }
        match ns.object_slot(current) {
            Err(e) => return Err(e),
            Ok(slot) => {
                current = ns.record_at(slot).parent;
            },
        }
        fuel -= 1;
    }
    Ok(false)
}

/// Checks the links of every live object past the root.
fn check_links(ns: &ObjectNamespace) -> (r: Result<(), NamespaceError>)
    requires
        ns.wf(),
    ensures
        r == links_from(ns@, 1),
{
    let mut i: usize = 1;
    while i < MAX_OBJECTS
        invariant
            ns.wf(),
            1 <= i <= MAX_OBJECTS,
            links_from(ns@, 1) == links_from(ns@, i as int),
        decreases MAX_OBJECTS - i,
    {
        let record = ns.record_at(i);
        if record.alive {
            let name = vstd::slice::slice_subrange(&record.name, 0, record.name_length as usize);
            assert(name@ == record_name(*record));
            match ObjectNamespace::validate_name(name) {
                Err(e) => return Err(e),
                Ok(()) => {},
            }
            let parent_slot = match ns.object_slot(record.parent) {
                Err(e) => return Err(e),
                Ok(slot) => slot,
            };
            let id = ObjectId { slot: i as u16, generation: record.generation };
            assert(id == id_at(ns@, i as int));
            if ns.record_at(parent_slot).kind != ObjectKind::Directory {
                return Err(NamespaceError::InvalidRecord);
            }
            match ns.find_child(record.parent, name) {
                Ok(Some(found)) => {
                    if found != id {
                        return Err(NamespaceError::InvalidRecord);
                    }
                },
                _ => return Err(NamespaceError::InvalidRecord),
            }
            match reach_root(ns, id) {
                Err(e) => return Err(e),
                Ok(false) => return Err(NamespaceError::InvalidRecord),
                Ok(true) => {},
            }
        }
        i += 1;
    }
    Ok(())
}

proof fn lemma_live_extents_step(ns: Seq<ObjectRecord>, i: int)
    requires
        0 <= i < ns.len(),
    ensures
        live_extents(ns.take(i + 1)) == live_extents(ns.take(i)) + record_extents(ns[i]),
{
    assert(ns.take(i + 1).drop_last() =~= ns.take(i));
}

/// Whether every live object with extents is a file within them, every
/// extent lies in `lo..hi`, and no two extents share a block.
fn check_extents(ns: &ObjectNamespace, lo: u64, hi: u64) -> (r: bool)
    ensures
        r == extents_ok(ns@, lo, hi),
{
    let first = ns.record_at(0);
    let ghost table = ns@;
    assert(*first == table[0]);
    let mut all: Vec<CowExtent> = Vec::new();
    let mut i: usize = 0;
    while i < MAX_OBJECTS
        invariant
            i <= MAX_OBJECTS,
            table == ns@,
            table.len() == MAX_OBJECTS,
            all@ == live_extents(table.take(i as int)),
            forall|j: int| 0 <= j < i ==> shape_ok(#[trigger] table[j]),
        decreases MAX_OBJECTS - i,
    {
        let record = ns.record_at(i);
        proof {
            lemma_live_extents_step(table, i as int);
        }
        if record.alive && record.extent_count != 0 {
            let count = record.extent_count as usize;
            if record.kind != ObjectKind::File || count > MAX_FILE_EXTENTS {
                assert(!shape_ok(table[i as int]));
                return false;
            }
            let ghost base = all@;
            let mut total: u64 = 0;
            let mut k: usize = 0;
            while k < count
                invariant
                    k <= count <= MAX_FILE_EXTENTS,
                    count == record.extent_count,
                    total == extent_blocks(record.extents@.take(k as int)),
                    total <= k * 0xffff_ffff,
                    all@ == base + record.extents@.take(k as int),
                decreases count - k,
            {
                proof {
                    lemma_extent_blocks_take(record.extents@, k as int);
                }
                total = total + record.extents[k].blocks as u64;
                all.push(record.extents[k]);
                k += 1;
                assert(all@ =~= base + record.extents@.take(k as int));
            }
            assert(total * 4096 <= 8 * 0xffff_ffff * 4096) by (nonlinear_arith)
                requires
                    total <= k * 0xffff_ffff,
                    k <= 8,
            ;
            if record.length as u64 > total * (BLOCK_BYTES as u64) {
                assert(!shape_ok(table[i as int]));
                return false;
            }
        } else {
            assert(all@ =~= all@ + record_extents(*record));
        }
        i += 1;
    }
    assert(table.take(MAX_OBJECTS as int) =~= table);
    let ghost everything = all@;
    assert(everything == live_extents(ns@));
    let mut a: usize = 0;
    while a < all.len()
        invariant
            a <= all@.len(),
            all@ == everything,
            everything == live_extents(ns@),
            forall|x: int| 0 <= x < a ==> lo <= (#[trigger] everything[x]).start && extent_end(everything[x]) <= hi,
        decreases all@.len() - a,
    {
        let e = all[a];
        if e.start < lo || e.blocks as u64 > hi || e.start > hi - e.blocks as u64 {
            assert(!(lo <= everything[a as int].start && extent_end(everything[a as int]) <= hi));
            return false;
        }
        a += 1;
    }
    let mut a: usize = 0;
    while a < all.len()
        invariant
            a <= all@.len(),
            all@ == everything,
            everything == live_extents(ns@),
            forall|x: int| 0 <= x < everything.len() ==> lo <= (#[trigger] everything[x]).start && extent_end(everything[x]) <= hi,
            forall|x: int, y: int| 0 <= x < a && x < y < everything.len() ==> !overlap(#[trigger] everything[x], #[trigger] everything[y]),
        decreases all@.len() - a,
    {
        let mut b: usize = a + 1;
        while b < all.len()
            invariant
                a < all@.len(),
                a + 1 <= b <= all@.len(),
                all@ == everything,
                everything == live_extents(ns@),
            everything == live_extents(ns@),
                forall|x: int| 0 <= x < everything.len() ==> lo <= (#[trigger] everything[x]).start && extent_end(everything[x]) <= hi,
                forall|x: int, y: int| 0 <= x < a && x < y < everything.len() ==> !overlap(#[trigger] everything[x], #[trigger] everything[y]),
                forall|y: int| a < y < b ==> !overlap(everything[a as int], #[trigger] everything[y]),
            decreases all@.len() - b,
        {
            let x = all[a];
            let y = all[b];
            assert(lo <= everything[a as int].start && extent_end(everything[a as int]) <= hi);
            assert(lo <= everything[b as int].start && extent_end(everything[b as int]) <= hi);
            if x.start < y.start + y.blocks as u64 && y.start < x.start + x.blocks as u64 {
                assert(overlap(everything[a as int], everything[b as int]));
                return false;
            }
            b += 1;
        }
        a += 1;
    }
    true
}


fn read_slot(out: &[u8], i: usize) -> (r: Result<ObjectRecord, NamespaceError>)
    requires
        i < MAX_OBJECTS,
        out@.len() >= SNAPSHOT_BYTES,
    ensures
        match r {
            Ok(record) => record_wire_ok(slot_wire(out@, i as int), prior_kind(i as int)) && record
                == record_from_wire(slot_wire(out@, i as int)),
            Err(e) => !record_wire_ok(slot_wire(out@, i as int), prior_kind(i as int)) && e
                == NamespaceError::InvalidRecord,
        },
{
    let w = vstd::slice::slice_subrange(out, SNAPSHOT_RECORD_BYTES * i, SNAPSHOT_RECORD_BYTES * i + SNAPSHOT_RECORD_BYTES);
    read_snapshot_record(w, if i == 0 { ObjectKind::Directory } else { ObjectKind::File })
}

/// Reads the table and the package catalog's snapshot back from the
/// metadata blocks of a volume, `metadata_blocks` of them: nothing where
/// nothing was stored, else both, once every slot, link and extent has
/// been checked against a data arena of `data_arena.0..data_arena.1`.
pub fn restore_snapshot_from_metadata(metadata_blocks: u32, metadata: &[u8], data_arena: (u64, u64)) -> (r: Result<
    (ObjectNamespace, Option<Vec<u8>>),
    NamespaceError,
>)
    requires
        1 <= metadata_blocks <= STORAGE_SNAPSHOT_MAX_BLOCKS ==> metadata@.len() == metadata_blocks * BLOCK_BYTES,
    ensures
        match r {
            Ok((ns, None)) => restore_out(metadata_blocks, metadata@, data_arena.0, data_arena.1) == Ok::<
                Option<(Seq<ObjectRecord>, Seq<u8>)>,
                NamespaceError,
            >(None) && fresh_namespace(ns@),
            Ok((ns, Some(packages))) => restore_out(metadata_blocks, metadata@, data_arena.0, data_arena.1) == Ok::<
                Option<(Seq<ObjectRecord>, Seq<u8>)>,
                NamespaceError,
            >(Some((ns@, packages@))) && ns.wf(),
            Err(e) => restore_out(metadata_blocks, metadata@, data_arena.0, data_arena.1) == Err::<
                Option<(Seq<ObjectRecord>, Seq<u8>)>,
                NamespaceError,
            >(e),
        },
{
    if metadata_blocks == 0 {
        return Ok((ObjectNamespace::new(), None));
    }
    if metadata_blocks == 1 {
        let mut zero = true;
        let mut i: usize = 0;
        while i < 8
            invariant
                i <= 8,
                metadata@.len() == BLOCK_BYTES,
                zero == forall|j: int| 0 <= j < i ==> #[trigger] metadata@[j] == 0,
            decreases 8 - i,
        {
            if metadata[i] != 0 {
                zero = false;
            }
            i += 1;
        }
        if zero {
            assert(metadata@.take(8) =~= zeros(8));
            return Ok((ObjectNamespace::new(), None));
        }
        assert(metadata@.take(8) != zeros(8)) by {
            let j = choose|j: int| 0 <= j < 8 && metadata@[j] != 0;
            assert(metadata@.take(8)[j] != zeros(8)[j]);
        }
    }
    if metadata_blocks as usize > STORAGE_SNAPSHOT_MAX_BLOCKS {
        return Err(NamespaceError::Recovery);
    }
    let original = read_le_u32(metadata, 0);
    let encoded = read_le_u32(metadata, 4) as usize;
    if original as usize != STORAGE_SNAPSHOT_BYTES || encoded < 8 || encoded > metadata.len() {
        return Err(NamespaceError::InvalidRecord);
    }
    let (out, clean) = unpack_runs(metadata, encoded);
    if out.len() < SNAPSHOT_BYTES {
        return Err(NamespaceError::InvalidRecord);
    }
    let view = out.as_slice();
    let r0 = match read_slot(view, 0) {
        Ok(record) => record,
        Err(e) => return Err(e),
    };
    let r1 = match read_slot(view, 1) {
        Ok(record) => record,
        Err(e) => return Err(e),
    };
    let r2 = match read_slot(view, 2) {
        Ok(record) => record,
        Err(e) => return Err(e),
    };
    let r3 = match read_slot(view, 3) {
        Ok(record) => record,
        Err(e) => return Err(e),
    };
    let ghost bytes = out@;
    assert(slots_ok(bytes)) by {
        assert forall|i: int| 0 <= i < MAX_OBJECTS implies record_wire_ok(#[trigger] slot_wire(bytes, i), prior_kind(i)) by {
            assert(i == 0 || i == 1 || i == 2 || i == 3);
        }
    }
    let ns = ObjectNamespace::from_records([r0, r1, r2, r3]);
    assert(ns@ =~= slots_of(bytes));
    let root = ns.record_at(0);
    if root.generation != 1 || !root.alive || root.kind != ObjectKind::Directory {
        return Err(NamespaceError::InvalidRecord);
    }
    assert(ns.wf()) by {
        assert forall|i: int| 0 <= i < MAX_OBJECTS implies (#[trigger] ns@[i]).name_length <= MAX_COMPONENT_BYTES && (
        ns@[i].extent_count == 0 ==> ns@[i].length <= MAX_FILE_BYTES) by {
            assert(record_wire_ok(slot_wire(bytes, i), prior_kind(i)));
        }
    }
    match check_links(&ns) {
        Err(e) => return Err(e),
        Ok(()) => {},
    }
    if !check_extents(&ns, data_arena.0, data_arena.1) {
        return Err(NamespaceError::InvalidRecord);
    }
    if !clean || out.len() != STORAGE_SNAPSHOT_BYTES {
        return Err(NamespaceError::InvalidRecord);
    }
    let packages = vstd::slice::slice_to_vec(vstd::slice::slice_subrange(view, SNAPSHOT_BYTES, STORAGE_SNAPSHOT_BYTES));
    Ok((ns, Some(packages)))
}


// ----- reading back what was written -----

/// A record the snapshot keeps exactly when read into a slot that held
/// `prior`: a parent generation that is not zero, a name length within
/// the field, an extent count within its limit with exactly that many
/// extents of some blocks and empty ones after, a length within the
/// inline data without extents, and extents only where a file was and
/// wide enough for the length.
pub open spec fn record_restorable(r: ObjectRecord, prior: ObjectKind) -> bool {
    let count = r.extent_count as int;
    &&& r.parent.generation != 0
    &&& r.name_length <= MAX_COMPONENT_BYTES
    &&& count <= MAX_FILE_EXTENTS
    &&& forall|k: int|
        0 <= k < MAX_FILE_EXTENTS ==> if k < count {
            (#[trigger] r.extents@[k]).blocks != 0
        } else {
            r.extents@[k] == (CowExtent { start: 0, blocks: 0 })
        }
    &&& count == 0 ==> r.length <= MAX_FILE_BYTES
    &&& count != 0 ==> prior == ObjectKind::File && r.length <= extent_blocks(r.extents@.take(count)) * BLOCK_BYTES
}

/// A table that its snapshot gives back: well formed, every slot kept
/// exactly, every link and extent passing the checks of a read against
/// the data arena `lo..hi`.
pub open spec fn snapshot_restorable(ns: Seq<ObjectRecord>, lo: u64, hi: u64) -> bool {
    &&& namespace_wf(ns)
    &&& forall|i: int| 0 <= i < MAX_OBJECTS ==> record_restorable(#[trigger] ns[i], prior_kind(i))
    &&& links_from(ns, 1) == Ok::<(), NamespaceError>(())
    &&& extents_ok(ns, lo, hi)
}

proof fn lemma_record_layout(r: ObjectRecord)
    ensures
        record_wire(r).len() == SNAPSHOT_RECORD_BYTES,
        record_wire(r).subrange(0, 4) == le32(r.generation),
        record_wire(r).subrange(4, 6) == le16(r.parent.slot),
        record_wire(r).subrange(6, 10) == le32(r.parent.generation),
        record_wire(r)[10] == kind_byte(r.kind),
        record_wire(r)[11] == flag(r.alive),
        record_wire(r).subrange(12, 14) == le16(r.name_length),
        record_wire(r).subrange(14, 269) == r.name@,
        record_wire(r).subrange(269, 273) == le32(r.length),
        record_wire(r)[273] == r.extent_count,
        record_wire(r).subrange(EXTENTS_AT as int, DATA_AT as int) == joined(r.extents@, |e: CowExtent| extent_wire(e)),
        record_wire(r).subrange(DATA_AT as int, SNAPSHOT_RECORD_BYTES as int) == r.data@,
{
    let fe = |e: CowExtent| extent_wire(e);
    lemma_joined_len(r.extents@, fe, EXTENT_WIRE_BYTES as nat);
    let a = le32(r.generation) + le16(r.parent.slot) + le32(r.parent.generation) + seq![kind_byte(r.kind), flag(r.alive)]
        + le16(r.name_length);
    let b = r.name@;
    let c = le32(r.length) + seq![r.extent_count];
    let d = joined(r.extents@, fe);
    let e = r.data@;
    let w = record_wire(r);
    assert(w =~= a + b + c + d + e);
    assert(a.len() == 14 && b.len() == 255 && c.len() == 5 && d.len() == 96 && e.len() == 8192);
    assert(a.subrange(0, 4) =~= le32(r.generation));
    assert(a.subrange(4, 6) =~= le16(r.parent.slot));
    assert(a.subrange(6, 10) =~= le32(r.parent.generation));
    assert(a.subrange(12, 14) =~= le16(r.name_length));
    assert(c.subrange(0, 4) =~= le32(r.length));
    assert(w.subrange(0, 14) =~= a);
    assert(w.subrange(14, 269) =~= b);
    assert(w.subrange(269, 274) =~= c);
    assert(w.subrange(274, 370) =~= d);
    assert(w.subrange(370, 8562) =~= e);
    assert(w.subrange(0, 4) =~= le32(r.generation));
    assert(w.subrange(4, 6) =~= le16(r.parent.slot));
    assert(w.subrange(6, 10) =~= le32(r.parent.generation));
    assert(w.subrange(12, 14) =~= le16(r.name_length));
    assert(w.subrange(269, 273) =~= le32(r.length));
}

pub(crate) proof fn lemma_le16_at(s: Seq<u8>, at: int, x: u16)
    requires
        0 <= at,
        at + 2 <= s.len(),
        s.subrange(at, at + 2) == le16(x),
    ensures
        le_u16(s, at) == x,
{
    lemma_le16_value(x);
    let t = s.subrange(at, at + 2);
    assert(s[at] == t[0] && s[at + 1] == t[1]);
}

proof fn lemma_wire_extent(r: ObjectRecord, k: int)
    requires
        0 <= k < MAX_FILE_EXTENTS,
    ensures
        wire_extent(record_wire(r), k) == r.extents@[k],
{
    let w = record_wire(r);
    let fe = |e: CowExtent| extent_wire(e);
    lemma_record_layout(r);
    lemma_joined_at(r.extents@, fe, EXTENT_WIRE_BYTES as nat, k);
    let d = joined(r.extents@, fe);
    let at = EXTENTS_AT + EXTENT_WIRE_BYTES * k;
    let x = r.extents@[k];
    assert(w.subrange(at, at + 12) =~= d.subrange(12 * k, 12 * k + 12));
    assert(extent_wire(x).subrange(0, 8) =~= le64(x.start));
    assert(extent_wire(x).subrange(8, 12) =~= le32(x.blocks));
    assert(w.subrange(at, at + 8) =~= le64(x.start));
    assert(w.subrange(at + 8, at + 12) =~= le32(x.blocks));
    lemma_le64_at(w, at, x.start);
    lemma_le32_at(w, at + 8, x.blocks);
}

/// A record kept exactly reads back as itself.
pub proof fn lemma_record_round_trip(r: ObjectRecord, prior: ObjectKind)
    requires
        record_restorable(r, prior),
    ensures
        record_wire_ok(record_wire(r), prior),
        record_from_wire(record_wire(r)) == r,
{
    let w = record_wire(r);
    lemma_record_layout(r);
    lemma_le32_at(w, 0, r.generation);
    lemma_le16_at(w, 4, r.parent.slot);
    lemma_le32_at(w, 6, r.parent.generation);
    lemma_le16_at(w, 12, r.name_length);
    lemma_le32_at(w, 269, r.length);
    assert forall|k: int| 0 <= k < MAX_FILE_EXTENTS implies #[trigger] wire_extent(w, k) == r.extents@[k] by {
        lemma_wire_extent(r, k);
    }
    assert(wire_extents(w) =~= r.extents@);
    lemma_array_of(r.name);
    lemma_array_of(r.data);
    lemma_array_of(r.extents);
    assert(kind_of(kind_byte(r.kind)) == r.kind);
    assert(record_from_wire(w) =~= r);
}

/// How long the runs from `at` on are at most.
proof fn lemma_runs_len(s: Seq<u8>, at: int)
    requires
        0 <= at <= s.len(),
    ensures
        runs(s, at).len() <= 4 * (s.len() - at),
    decreases s.len() - at,
{
    if at < s.len() {
        lemma_run_from(s, at, 1);
        let n = run_from(s, at, 1);
        lemma_runs_len(s, at + n);
    }
}

/// Unpacking the runs of `raw` from `at` on, laid at `base` in `m`, gives
/// back the rest of `raw` and ends cleanly.
proof fn lemma_unpack_runs(raw: Seq<u8>, at: int, m: Seq<u8>, base: int)
    requires
        raw.len() == STORAGE_SNAPSHOT_BYTES,
        0 <= at <= raw.len(),
        0 <= base,
        base + runs(raw, at).len() <= m.len(),
        m.subrange(base, base + runs(raw, at).len()) == runs(raw, at),
    ensures
        unpack_from(m, base + runs(raw, at).len(), base, at) == (raw.subrange(at, raw.len() as int), true),
    decreases raw.len() - at,
{
    let end = base + runs(raw, at).len();
    if at == raw.len() {
        assert(raw.subrange(at, raw.len() as int) =~= Seq::<u8>::empty());
    } else {
        lemma_run_from(raw, at, 1);
        let n = run_from(raw, at, 1);
        let wire = run_wire(raw, at, n);
        let rest = runs(raw, at + n);
        assert(runs(raw, at) == wire + rest);
        lemma_runs_len(raw, at + n);
        let head = m.subrange(base, end);
        assert(head[0] == wire[0]);
        assert(m[base] == flag(raw[at] != 0));
        assert(m.subrange(base + 1, base + 3) =~= le16(n as u16)) by {
            assert forall|i: int| 0 <= i < 2 implies #[trigger] m.subrange(base + 1, base + 3)[i] == le16(n as u16)[i] by {
                assert(head[1 + i] == wire[1 + i]);
            }
        }
        lemma_le16_at(m, base + 1, n as u16);
        let skip = if raw[at] == 0 {
            3
        } else {
            3 + n
        };
        assert(wire.len() == skip);
        assert(m.subrange(base + skip, end) =~= rest) by {
            assert forall|i: int| 0 <= i < rest.len() implies #[trigger] m.subrange(base + skip, end)[i] == rest[i] by {
                assert(head[skip + i] == (wire + rest)[skip + i]);
            }
        }
        lemma_unpack_runs(raw, at + n, m, base + skip);
        if raw[at] == 0 {
            assert(raw.subrange(at, at + n) =~= zeros(n as nat));
        } else {
            assert(m.subrange(base + 3, base + 3 + n) =~= raw.subrange(at, at + n)) by {
                assert forall|i: int| 0 <= i < n implies #[trigger] m.subrange(base + 3, base + 3 + n)[i] == raw.subrange(at, at + n)[i] by {
                    assert(head[3 + i] == wire[3 + i]);
                }
            }
        }
        assert(raw.subrange(at, raw.len() as int) =~= raw.subrange(at, at + n) + raw.subrange(at + n, raw.len() as int));
    }
}

/// Unpacking a packed snapshot, padded with any zeros, gives back what
/// was packed and ends cleanly.
pub proof fn lemma_pack_round_trip(raw: Seq<u8>, padding: nat)
    requires
        raw.len() == STORAGE_SNAPSHOT_BYTES,
    ensures
        packed_header_ok(packed_snapshot(raw) + zeros(padding)),
        unpacked(packed_snapshot(raw) + zeros(padding)) == (raw, true),
{
    let body = runs(raw, 0);
    lemma_runs_len(raw, 0);
    let packed = packed_snapshot(raw);
    let m = packed + zeros(padding);
    assert(m.subrange(0, 4) =~= le32(STORAGE_SNAPSHOT_BYTES as u32));
    assert(m.subrange(4, 8) =~= le32((8 + body.len()) as u32));
    lemma_le32_at(m, 0, STORAGE_SNAPSHOT_BYTES as u32);
    lemma_le32_at(m, 4, (8 + body.len()) as u32);
    assert(m.subrange(8, 8 + body.len() as int) =~= body);
    lemma_unpack_runs(raw, 0, m, 8);
    assert(raw.subrange(0, raw.len() as int) =~= raw);
}


proof fn lemma_slot_wire(ns: Seq<ObjectRecord>, packages: Seq<u8>, i: int)
    requires
        ns.len() == MAX_OBJECTS,
        packages.len() == PACKAGE_SNAPSHOT_BYTES,
        0 <= i < MAX_OBJECTS,
    ensures
        slot_wire(raw_snapshot(ns, packages), i) == record_wire(ns[i]),
{
    let fr = |r: ObjectRecord| record_wire(r);
    assert forall|r: ObjectRecord| #[trigger] fr(r).len() == SNAPSHOT_RECORD_BYTES by {
        lemma_record_wire_len(r);
    }
    lemma_joined_at(ns, fr, SNAPSHOT_RECORD_BYTES as nat, i);
    let table = joined(ns, fr);
    let raw = raw_snapshot(ns, packages);
    let at = SNAPSHOT_RECORD_BYTES * i;
    assert(slot_wire(raw, i) =~= table.subrange(at, at + SNAPSHOT_RECORD_BYTES));
}

/// A table that its snapshot gives back, stored together with a package
/// catalog snapshot, reads back from the metadata blocks as that table
/// and that package catalog snapshot.
pub proof fn lemma_snapshot_round_trip(ns: Seq<ObjectRecord>, packages: Seq<u8>, lo: u64, hi: u64, m: Seq<u8>)
    requires
        snapshot_restorable(ns, lo, hi),
        packages.len() == PACKAGE_SNAPSHOT_BYTES,
        metadata_out(raw_snapshot(ns, packages)) == Ok::<Seq<u8>, NamespaceError>(m),
    ensures
        m.len() % (BLOCK_BYTES as nat) == 0,
        restore_out((m.len() / (BLOCK_BYTES as nat)) as u32, m, lo, hi) == Ok::<
            Option<(Seq<ObjectRecord>, Seq<u8>)>,
            NamespaceError,
        >(Some((ns, packages))),
{
    let raw = raw_snapshot(ns, packages);
    lemma_raw_snapshot_len(ns, packages);
    let packed = packed_snapshot(raw);
    let len = packed.len() as int;
    let blocks = blocks_for(len);
    assert(len >= 8);
    assert(blocks * 4096 >= len && blocks * 4096 < len + 4096 && blocks >= 1) by (nonlinear_arith)
        requires
            blocks == (len + 4095) / 4096,
            len >= 8,
    ;
    let padding = (blocks * BLOCK_BYTES - len) as nat;
    assert(m == packed + zeros(padding));
    assert(m.len() == blocks * 4096);
    assert(m.len() % 4096 == 0 && m.len() / 4096 == blocks) by (nonlinear_arith)
        requires
            m.len() == blocks * 4096,
            blocks >= 1,
    ;
    let b = (m.len() / (BLOCK_BYTES as nat)) as u32;
    assert(b == blocks);
    assert(m[0] == le32(STORAGE_SNAPSHOT_BYTES as u32)[0]);
    assert(m[0] != 0);
    assert(m.take(8)[0] != zeros(8)[0]);
    lemma_pack_round_trip(raw, padding);
    assert forall|i: int| 0 <= i < MAX_OBJECTS implies #[trigger] slot_wire(raw, i) == record_wire(ns[i]) by {
        lemma_slot_wire(ns, packages, i);
    }
    assert forall|i: int| 0 <= i < MAX_OBJECTS implies record_wire_ok(#[trigger] slot_wire(raw, i), prior_kind(i))
        && record_from_wire(slot_wire(raw, i)) == ns[i] by {
        lemma_record_round_trip(ns[i], prior_kind(i));
    }
    assert(slots_of(raw) =~= ns);
    assert(raw.subrange(SNAPSHOT_BYTES as int, STORAGE_SNAPSHOT_BYTES as int) =~= packages);
}

// ----- the table and the package catalog together -----

/// No file extent shares a block with a package extent, and no package
/// extent runs past the last block.
pub open spec fn clear_of(files: Seq<CowExtent>, packages: Seq<PackageExtent>) -> bool {
    forall|a: int, b: int|
        0 <= a < files.len() && 0 <= b < packages.len() ==> #[trigger] pair_clear(files[a], packages[b])
}

/// A file extent and a package extent that share no block, the package
/// extent within the last block.
pub open spec fn pair_clear(file: CowExtent, package: PackageExtent) -> bool {
    &&& package.start + package.blocks <= u64::MAX
    &&& !(file.start < package.start + package.blocks && package.start < extent_end(file))
}

pub open spec fn files_clear_of_packages(ns: Seq<ObjectRecord>, packages: Seq<PackageExtent>) -> bool {
    clear_of(live_extents(ns), packages)
}

/// What reading the metadata blocks back gives, the package catalog
/// restored too against the package arena: `Package` with the catalog's
/// own error, `InvalidRecord` where a file and a package share a block.
pub open spec fn restore_storage_out(
    blocks: u32,
    m: Seq<u8>,
    data_arena: (u64, u64),
    package_arena: Option<(u64, u64)>,
) -> Result<Option<(Seq<ObjectRecord>, Seq<PackageRecord>)>, NamespaceError> {
    match restore_out(blocks, m, data_arena.0, data_arena.1) {
        Err(e) => Err(e),
        Ok(None) => Ok(None),
        Ok(Some((ns, packages))) => match restore_catalog_out(packages, package_arena) {
            Err(e) => Err(NamespaceError::Package(e)),
            Ok(records) => if files_clear_of_packages(ns, used_extents_of(records)) {
                Ok(Some((ns, records)))
            } else {
                Err(NamespaceError::InvalidRecord)
            },
        },
    }
}

/// The extents of the live files, slot by slot.
fn file_extents_of(ns: &ObjectNamespace) -> (r: Vec<CowExtent>)
    requires
        forall|i: int| 0 <= i < ns@.len() ==> shape_ok(#[trigger] ns@[i]),
    ensures
        r@ == live_extents(ns@),
{
    let first = ns.record_at(0);
    let ghost table = ns@;
    assert(*first == table[0]);
    let mut files: Vec<CowExtent> = Vec::new();
    let mut i: usize = 0;
    while i < MAX_OBJECTS
        invariant
            i <= MAX_OBJECTS,
            table == ns@,
            table.len() == MAX_OBJECTS,
            forall|j: int| 0 <= j < table.len() ==> shape_ok(#[trigger] table[j]),
            files@ == live_extents(table.take(i as int)),
        decreases MAX_OBJECTS - i,
    {
        let record = ns.record_at(i);
        proof {
            lemma_live_extents_step(table, i as int);
        }
        if record.alive && record.extent_count != 0 {
            let count = record.extent_count as usize;
            assert(shape_ok(table[i as int]));
            let ghost base = files@;
            let mut k: usize = 0;
            while k < count
                invariant
                    k <= count <= MAX_FILE_EXTENTS,
                    count == record.extent_count,
                    files@ == base + record.extents@.take(k as int),
                decreases count - k,
            {
                files.push(record.extents[k]);
                k += 1;
                assert(files@ =~= base + record.extents@.take(k as int));
            }
        } else {
            assert(files@ =~= files@ + record_extents(*record));
        }
        i += 1;
    }
    assert(table.take(MAX_OBJECTS as int) =~= table);
    files
}

/// Whether no file extent shares a block with a package extent.
fn files_clear(files: &Vec<CowExtent>, packages: &Vec<PackageExtent>) -> (r: bool)
    ensures
        r == clear_of(files@, packages@),
{
    let mut a: usize = 0;
    while a < files.len()
        invariant
            a <= files@.len(),
            forall|x: int, y: int|
                0 <= x < a && 0 <= y < packages@.len() ==> #[trigger] pair_clear(files@[x], packages@[y]),
        decreases files@.len() - a,
    {
        let file = files[a];
        let mut b: usize = 0;
        while b < packages.len()
            invariant
                a < files@.len(),
                b <= packages@.len(),
                file == files@[a as int],
                forall|x: int, y: int|
                    0 <= x < a && 0 <= y < packages@.len() ==> #[trigger] pair_clear(files@[x], packages@[y]),
                forall|y: int| 0 <= y < b ==> #[trigger] pair_clear(file, packages@[y]),
            decreases packages@.len() - b,
        {
            let package = packages[b];
            if package.blocks as u64 > u64::MAX - package.start {
                assert(!pair_clear(files@[a as int], packages@[b as int]));
                return false;
            }
            if (file.start as u128) < package.start as u128 + package.blocks as u128 && (package.start as u128)
                < file.start as u128 + file.blocks as u128 {
                assert(!pair_clear(files@[a as int], packages@[b as int]));
                return false;
            }
            b += 1;
        }
        a += 1;
    }
    true
}

/// Reads the table and the package catalog back from the metadata
/// blocks of a volume, checking files against the data arena, packages
/// against the package arena, and the two against each other.
pub fn restore_snapshot_from_store(
    metadata_blocks: u32,
    metadata: &[u8],
    data_arena: (u64, u64),
    package_arena: Option<(u64, u64)>,
) -> (r: Result<(ObjectNamespace, PackageCatalog), NamespaceError>)
    requires
        1 <= metadata_blocks <= STORAGE_SNAPSHOT_MAX_BLOCKS ==> metadata@.len() == metadata_blocks * BLOCK_BYTES,
    ensures
        match restore_storage_out(metadata_blocks, metadata@, data_arena, package_arena) {
            Err(e) => r == Err::<(ObjectNamespace, PackageCatalog), NamespaceError>(e),
            Ok(None) => r matches Ok((ns, catalog)) && fresh_namespace(ns@) && catalog.wf() && forall|i: int|
                0 <= i < catalog@.len() ==> empty_package_record(#[trigger] catalog@[i]),
            Ok(Some((table, records))) => r matches Ok((ns, catalog)) && ns@ == table && ns.wf() && catalog@ == records
                && catalog.wf(),
        },
{
    let (ns, packages) = match restore_snapshot_from_metadata(metadata_blocks, metadata, data_arena) {
        Err(e) => return Err(e),
        Ok(found) => found,
    };
    let mut catalog = PackageCatalog::new();
    let packages = match packages {
        None => return Ok((ns, catalog)),
        Some(packages) => packages,
    };
    match catalog.restore_snapshot(packages.as_slice(), package_arena) {
        Err(e) => return Err(NamespaceError::Package(e)),
        Ok(()) => {},
    }
    let used = catalog.used_extents();
    let files = file_extents_of(&ns);
    if !files_clear(&files, &used) {
        return Err(NamespaceError::InvalidRecord);
    }
    Ok((ns, catalog))
}

/// A table and a package catalog that their snapshot gives back, with no
/// file sharing a block with a package, read back from the metadata
/// blocks they were stored to as that table and that catalog.
pub proof fn lemma_storage_round_trip(
    ns: Seq<ObjectRecord>,
    records: Seq<PackageRecord>,
    data_arena: (u64, u64),
    package_arena: (u64, u64),
    m: Seq<u8>,
)
    requires
        snapshot_restorable(ns, data_arena.0, data_arena.1),
        catalog_wf(records),
        forall|i: int| 0 <= i < records.len() ==> package_restorable(#[trigger] records[i]),
        records_consistent(records, package_arena.0, package_arena.1),
        files_clear_of_packages(ns, used_extents_of(records)),
        metadata_out(raw_snapshot(ns, catalog_wire(records))) == Ok::<Seq<u8>, NamespaceError>(m),
    ensures
        restore_storage_out((m.len() / (BLOCK_BYTES as nat)) as u32, m, data_arena, Some(package_arena)) == Ok::<
            Option<(Seq<ObjectRecord>, Seq<PackageRecord>)>,
            NamespaceError,
        >(Some((ns, records))),
{
    lemma_catalog_wire_len(records);
    lemma_snapshot_round_trip(ns, catalog_wire(records), data_arena.0, data_arena.1, m);
    lemma_catalog_round_trip(records, package_arena.0, package_arena.1);
}

} // verus!
