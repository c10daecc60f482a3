//! Writing into a file that lives in block extents: how many blocks the
//! file takes afterwards, and what each of its blocks holds once the new
//! bytes are laid over the old ones. Allocating the blocks and writing
//! them to the volume is the store's part.

use vstd::prelude::*;
use crate::namespace::{
    BLOCK_BYTES, MAX_FILE_BYTES, CowExtent, NamespaceError, ObjectId, ObjectKind, ObjectNamespace, live_id,
};

verus! {

/// Blocks that `bytes` bytes take.
pub open spec fn blocks_of(bytes: int) -> int {
    (bytes + BLOCK_BYTES - 1) / (BLOCK_BYTES as int)
}

/// Blocks the file takes after a write that ends at `end` into a file of
/// `length` bytes: it grows to cover the write and never shrinks.
pub fn blocks_after_write(length: usize, end: usize) -> (r: usize)
    ensures
        r == blocks_of(if length >= end { length as int } else { end as int }),
{
    let new_length = if length >= end { length } else { end };
    new_length / BLOCK_BYTES + if new_length % BLOCK_BYTES == 0 { 0 } else { 1 }
}

pub open spec fn extent_blocks(extents: Seq<CowExtent>) -> int
    decreases extents.len(),
{
    if extents.len() == 0 {
        0
    } else {
        extent_blocks(extents.drop_last()) + extents.last().blocks
    }
}

/// Blocks that held the file before the write: those of its extents, or,
/// for a file still held inline, those its length takes.
pub open spec fn old_blocks(length: int, extents: Seq<CowExtent>) -> int {
    if extents.len() == 0 {
        blocks_of(length)
    } else {
        extent_blocks(extents)
    }
}

pub fn blocks_before_write(length: usize, extents: &[CowExtent]) -> (r: u64)
    requires
        extents@.len() <= crate::namespace::MAX_FILE_EXTENTS,
    ensures
        r == old_blocks(length as int, extents@),
{
    if extents.len() == 0 {
        return (length / BLOCK_BYTES + if length % BLOCK_BYTES == 0 { 0 } else { 1 }) as u64;
    }
    let mut total: u64 = 0;
    let mut i: usize = 0;
    while i < extents.len()
        invariant
            i <= extents@.len(),
            extents@.len() <= crate::namespace::MAX_FILE_EXTENTS,
            total == extent_blocks(extents@.take(i as int)),
            total <= i * 0x1_0000_0000,
        decreases extents@.len() - i,
    {
        assert(extents@.take(i + 1).drop_last() =~= extents@.take(i as int));
        total = total + extents[i].blocks as u64;
        i += 1;
    }
    assert(extents@.take(i as int) =~= extents@);
    total
}

/// Byte `j` of inline file data as block `block` starts it: the file's
/// bytes up to its length, zeros after.
pub open spec fn inline_byte(data: Seq<u8>, length: int, block: int, j: int) -> u8 {
    let at = block * BLOCK_BYTES + j;
    if at < length && at < data.len() {
        data[at]
    } else {
        0
    }
}

/// Block `block` of a file held inline in `data` with `length` bytes.
pub fn inline_block(data: &[u8; MAX_FILE_BYTES], length: usize, block: usize) -> (r: [u8; BLOCK_BYTES])
    requires
        block <= MAX_FILE_BYTES / BLOCK_BYTES,
    ensures
        forall|j: int| 0 <= j < BLOCK_BYTES ==> #[trigger] r@[j] == inline_byte(data@, length as int, block as int, j),
{
    let mut out = [0u8; BLOCK_BYTES];
    let start = block * BLOCK_BYTES;
    let mut j: usize = 0;
    while j < BLOCK_BYTES
        invariant
            j <= BLOCK_BYTES,
            start == block * BLOCK_BYTES,
            block <= MAX_FILE_BYTES / BLOCK_BYTES,
            forall|k: int| 0 <= k < j ==> #[trigger] out@[k] == inline_byte(data@, length as int, block as int, k),
            forall|k: int| j <= k < BLOCK_BYTES ==> #[trigger] out@[k] == 0,
        decreases BLOCK_BYTES - j,
    {
        let at = start + j;
        if at < length && at < MAX_FILE_BYTES {
            out[j] = data[at];
        }
        j += 1;
    }
    out
}

/// Byte `j` of block `block` after writing `input` at `offset` over
/// `base`: the input's byte where the write covers it, else the old one.
pub open spec fn written_byte(base: Seq<u8>, block: int, offset: int, input: Seq<u8>, j: int) -> u8 {
    let at = block * BLOCK_BYTES + j;
    if offset <= at < offset + input.len() {
        input[at - offset]
    } else {
        base[j]
    }
}

/// Block `block` of the file after writing `input` at `offset`, given
/// what the block held before (`base`, zeros past the old end).
pub fn write_over_block(base: &[u8; BLOCK_BYTES], block: usize, offset: usize, input: &[u8]) -> (r: [u8; BLOCK_BYTES])
    requires
        block * BLOCK_BYTES + BLOCK_BYTES <= usize::MAX,
        offset + input@.len() <= usize::MAX,
    ensures
        forall|j: int| 0 <= j < BLOCK_BYTES ==> #[trigger] r@[j] == written_byte(base@, block as int, offset as int, input@, j),
{
    let mut out = *base;
    let block_start = block * BLOCK_BYTES;
    let block_end = block_start + BLOCK_BYTES;
    let end = offset + input.len();
    let input_start = if offset >= block_start { offset } else { block_start };
    let input_end = if end <= block_end { end } else { block_end };
    if input_start < input_end {
        let mut at = input_start;
        while at < input_end
            invariant
                block_start == block * BLOCK_BYTES,
                block_end == block_start + BLOCK_BYTES,
                end == offset + input@.len(),
                input_start <= at <= input_end,
                input_start == (if offset >= block_start { offset } else { block_start }),
                input_end == (if end <= block_end { end } else { block_end }),
                forall|j: int| 0 <= j < BLOCK_BYTES && block_start + j < at ==> #[trigger] out@[j] == written_byte(
                    base@,
                    block as int,
                    offset as int,
                    input@,
                    j,
                ),
                forall|j: int| 0 <= j < BLOCK_BYTES && !(block_start + j < at) ==> #[trigger] out@[j] == base@[j],
            decreases input_end - at,
        {
            out[at - block_start] = input[at - offset];
            at += 1;
        }
    }
    out
}

/// How a write through a file handle goes: into the inline data, or into
/// freshly allocated extents holding `blocks` blocks, of which the first
/// `old_blocks` start from the file's old content, for a file of
/// `new_length` bytes afterwards.
#[derive(Clone, Copy, Debug, PartialEq, Eq, Structural)]
pub enum WritePlan {
    Inline,
    Extents { new_length: usize, blocks: usize, old_blocks: u64 },
}

/// The plan for writing `len` bytes at `offset` into the file `id`: an
/// empty write or one past the end of memory is `TooLarge`, a dead handle
/// `Stale`, a directory `IsDirectory`, a record naming more extents than
/// a file has room for `InvalidRecord`; a file still held inline that the
/// write keeps within the inline limit is written inline.
pub open spec fn write_plan_out(
    ns: Seq<crate::namespace::ObjectRecord>,
    id: ObjectId,
    offset: int,
    len: int,
) -> Result<WritePlan, NamespaceError> {
    if len == 0 {
        Err(NamespaceError::TooLarge)
    } else if !live_id(ns, id) {
        Err(NamespaceError::Stale)
    } else {
        let record = ns[id.slot as int];
        if record.kind != ObjectKind::File {
            Err(NamespaceError::IsDirectory)
        } else if offset + len > usize::MAX {
            Err(NamespaceError::TooLarge)
        } else if record.extent_count == 0 && offset + len <= MAX_FILE_BYTES {
            Ok(WritePlan::Inline)
        } else if record.extent_count > crate::namespace::MAX_FILE_EXTENTS {
            Err(NamespaceError::InvalidRecord)
        } else {
            let end = offset + len;
            let new_length = if record.length >= end { record.length as int } else { end };
            Ok(
                WritePlan::Extents {
                    new_length: new_length as usize,
                    blocks: blocks_of(new_length) as usize,
                    old_blocks: old_blocks(
                        record.length as int,
                        record.extents@.take(record.extent_count as int),
                    ) as u64,
                },
            )
        }
    }
}

/// A write never shrinks a file: the planned length of a file written
/// into extents is the larger of its length and the end of the write, and
/// the planned blocks are exactly enough to hold it.
pub proof fn lemma_write_plan_grows_to_cover(
    ns: Seq<crate::namespace::ObjectRecord>,
    id: ObjectId,
    offset: int,
    len: int,
)
    requires
        0 <= offset,
        0 <= len,
    ensures
        write_plan_out(ns, id, offset, len) matches Ok(WritePlan::Extents { new_length, blocks, old_blocks }) ==> {
            let length = ns[id.slot as int].length as int;
            &&& new_length >= length
            &&& new_length >= offset + len
            &&& (new_length == length || new_length == offset + len)
            &&& blocks * BLOCK_BYTES >= new_length
            &&& (blocks - 1) * BLOCK_BYTES < new_length || (blocks == 0 && new_length == 0)
        },
{
    if let Ok(WritePlan::Extents { new_length, blocks, old_blocks }) = write_plan_out(ns, id, offset, len) {
        let n = new_length as int;
        assert(blocks == (n + BLOCK_BYTES - 1) / (BLOCK_BYTES as int));
        assert(blocks * BLOCK_BYTES >= n && ((blocks - 1) * BLOCK_BYTES < n || (blocks == 0 && n == 0)))
            by (nonlinear_arith)
            requires
                blocks == (n + 4096 - 1) / 4096,
                0 <= n,
        ;
    }
}

pub fn plan_write(ns: &ObjectNamespace, id: ObjectId, offset: usize, len: usize) -> (r: Result<WritePlan, NamespaceError>)
    requires
        ns.wf(),
    ensures
        r == write_plan_out(ns@, id, offset as int, len as int),
{
    if len == 0 {
        return Err(NamespaceError::TooLarge);
    }
    let slot = match ns.object_slot(id) {
        Err(e) => return Err(e),
        Ok(slot) => slot,
    };
    let record = ns.record_at(slot);
    if record.kind != ObjectKind::File {
        return Err(NamespaceError::IsDirectory);
    }
    let end = match offset.checked_add(len) {
        None => return Err(NamespaceError::TooLarge),
        Some(end) => end,
    };
    if record.extent_count == 0 && end <= MAX_FILE_BYTES {
        return Ok(WritePlan::Inline);
    }
    let count = record.extent_count as usize;
    if count > crate::namespace::MAX_FILE_EXTENTS {
        return Err(NamespaceError::InvalidRecord);
    }
    let length = record.length as usize;
    let blocks = blocks_after_write(length, end);
    let old = blocks_before_write(length, vstd::slice::slice_subrange(record.extents.as_slice(), 0, count));
    let new_length = if length >= end { length } else { end };
    Ok(WritePlan::Extents { new_length, blocks, old_blocks: old })
}

// ----- allocating the extents -----

/// Where allocating a file's new extents stands: blocks still to find,
/// extents found so far, and the size of the run last asked for.
#[derive(Clone, Copy, Debug, PartialEq, Eq, Structural)]
pub struct AllocationState {
    pub remaining: usize,
    pub extents: usize,
    pub requested: u32,
}

/// What the volume's allocator answered.
#[derive(Clone, Copy, Debug, PartialEq, Eq, Structural)]
pub enum AllocationEvent {
    /// Nothing asked yet.
    Start,
    /// A run of this many blocks was handed out.
    Allocated(u32),
    /// No run of the size asked for is free.
    OutOfSpace,
    /// Any other refusal.
    Failed,
}

/// What to do next.
#[derive(Clone, Copy, Debug, PartialEq, Eq, Structural)]
pub enum AllocationAction {
    /// Ask the allocator for a run of this many blocks.
    Allocate(u32),
    /// Every block is found.
    Finished,
    /// The file would need more extents than it has room for.
    TooLarge,
    /// Give up with the allocator's refusal.
    Stop,
}

/// Starting the next extent: done when no block is left, refused past the
/// last extent slot, else ask for all that is left, at most `u32::MAX`.
pub open spec fn begin_extent(remaining: usize, extents: usize) -> (AllocationState, AllocationAction) {
    if remaining == 0 {
        (AllocationState { remaining, extents, requested: 0 }, AllocationAction::Finished)
    } else if extents == crate::namespace::MAX_FILE_EXTENTS {
        (AllocationState { remaining, extents, requested: 0 }, AllocationAction::TooLarge)
    } else {
        let requested = (if remaining > u32::MAX { u32::MAX as usize } else { remaining }) as u32;
        (AllocationState { remaining, extents, requested }, AllocationAction::Allocate(requested))
    }
}

/// One step of allocating: a run handed out counts as an extent and its
/// blocks as found; a run too large to find is asked for again at half its
/// size, rounded up, until one block is asked for; any other refusal
/// stops.
pub open spec fn allocation_step(state: AllocationState, event: AllocationEvent) -> (AllocationState, AllocationAction) {
    match event {
        AllocationEvent::Start => begin_extent(state.remaining, state.extents),
        AllocationEvent::Allocated(blocks) => begin_extent(
            (state.remaining - blocks) as usize,
            (state.extents + 1) as usize,
        ),
        AllocationEvent::OutOfSpace => if state.requested > 1 {
            let half = ((state.requested + 1) / 2) as u32;
            (AllocationState { requested: half, ..state }, AllocationAction::Allocate(half))
        } else {
            (state, AllocationAction::Stop)
        },
        AllocationEvent::Failed => (state, AllocationAction::Stop),
    }
}

fn begin_extent_exec(remaining: usize, extents: usize) -> (r: (AllocationState, AllocationAction))
    ensures
        r == begin_extent(remaining, extents),
{
    if remaining == 0 {
        (AllocationState { remaining, extents, requested: 0 }, AllocationAction::Finished)
    } else if extents == crate::namespace::MAX_FILE_EXTENTS {
        (AllocationState { remaining, extents, requested: 0 }, AllocationAction::TooLarge)
    } else {
        let requested: u32 = if remaining > u32::MAX as usize { u32::MAX } else { remaining as u32 };
        (AllocationState { remaining, extents, requested }, AllocationAction::Allocate(requested))
    }
}

/// The next state and action of the allocation loop, given what the
/// allocator answered. A run handed out is no larger than what was asked
/// for, which is no more than what is left.
pub fn next_allocation(state: AllocationState, event: AllocationEvent) -> (r: (AllocationState, AllocationAction))
    requires
        state.requested <= state.remaining,
        state.extents < crate::namespace::MAX_FILE_EXTENTS || !(event is Allocated),
        event matches AllocationEvent::Allocated(blocks) ==> blocks <= state.requested,
    ensures
        r == allocation_step(state, event),
{
    match event {
        AllocationEvent::Start => begin_extent_exec(state.remaining, state.extents),
        AllocationEvent::Allocated(blocks) => begin_extent_exec(state.remaining - blocks as usize, state.extents + 1),
        AllocationEvent::OutOfSpace => {
            if state.requested > 1 {
                let half = state.requested / 2 + state.requested % 2;
                (AllocationState { requested: half, ..state }, AllocationAction::Allocate(half))
            } else {
                (state, AllocationAction::Stop)
            }
        },
        AllocationEvent::Failed => (state, AllocationAction::Stop),
    }
}

} // verus!
