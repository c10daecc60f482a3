//! Little-endian field encoding for on-disk records.

use vstd::prelude::*;
use crate::acpi::{le_u16, le_u32, le_u64};

verus! {

/// `after` equals `before` outside `[offset, offset + width)`.
pub open spec fn same_outside(before: Seq<u8>, after: Seq<u8>, offset: int, width: int) -> bool {
    &&& after.len() == before.len()
    &&& forall|j: int| 0 <= j < before.len() && !(offset <= j < offset + width) ==> after[j] == before[j]
}

/// Write `value` little-endian at `offset`.
pub fn put_u16(bytes: &mut Vec<u8>, offset: usize, value: u16)
    requires
        offset + 2 <= old(bytes)@.len(),
    ensures
        same_outside(old(bytes)@, final(bytes)@, offset as int, 2),
        le_u16(final(bytes)@, offset as int) == value,
{
    let n = bytes.len();
    assert(offset + 2 <= n);
    bytes.set(offset, (value % 256) as u8);
    bytes.set(offset + 1, (value / 256) as u8);
}

/// Write `value` little-endian at `offset`.
pub fn put_u32(bytes: &mut Vec<u8>, offset: usize, value: u32)
    requires
        offset + 4 <= old(bytes)@.len(),
    ensures
        same_outside(old(bytes)@, final(bytes)@, offset as int, 4),
        le_u32(final(bytes)@, offset as int) == value,
{
    let n = bytes.len();
    assert(offset + 4 <= n);
    bytes.set(offset, (value % 256) as u8);
    bytes.set(offset + 1, ((value / 256) % 256) as u8);
    bytes.set(offset + 2, ((value / 65536) % 256) as u8);
    bytes.set(offset + 3, (value / 16777216) as u8);
}

/// Write `value` little-endian at `offset`.
pub fn put_u64(bytes: &mut Vec<u8>, offset: usize, value: u64)
    requires
        offset + 8 <= old(bytes)@.len(),
    ensures
        same_outside(old(bytes)@, final(bytes)@, offset as int, 8),
        le_u64(final(bytes)@, offset as int) == value,
{
    let n = bytes.len();
    assert(offset + 8 <= n);
    let ghost before = bytes@;
    put_u32(bytes, offset, (value % 0x1_0000_0000) as u32);
    let ghost middle = bytes@;
    put_u32(bytes, offset + 4, (value / 0x1_0000_0000) as u32);
    assert(le_u32(bytes@, offset as int) == le_u32(middle, offset as int));
}

/// The little-endian value at `offset`.
pub fn get_u16(bytes: &[u8], offset: usize) -> (r: u16)
    requires
        offset + 2 <= bytes@.len(),
    ensures
        r == le_u16(bytes@, offset as int),
{
    crate::aml::read_le_u16_at(bytes, offset)
}

/// The little-endian value at `offset`.
pub fn get_u32(bytes: &[u8], offset: usize) -> (r: u32)
    requires
        offset + 4 <= bytes@.len(),
    ensures
        r == le_u32(bytes@, offset as int),
{
    crate::aml::read_le_u32_at(bytes, offset)
}

/// The little-endian value at `offset`.
pub fn get_u64(bytes: &[u8], offset: usize) -> (r: u64)
    requires
        offset + 8 <= bytes@.len(),
    ensures
        r == le_u64(bytes@, offset as int),
{
    let n = bytes.len();
    assert(offset + 8 <= n);
    let low = crate::aml::read_le_u32_at(bytes, offset) as u64;
    let high = crate::aml::read_le_u32_at(bytes, offset + 4) as u64;
    assert(high * 0x1_0000_0000 <= 0xffff_ffff_0000_0000) by (nonlinear_arith)
        requires
            high <= 0xffff_ffff,
    ;
    low + high * 0x1_0000_0000
}

} // verus!
