//! A user address space: four page tables that map one code page and
//! one stack page for a user program in the first free slot of a copy of
//! the kernel's top-level table, and the check that only that slot is
//! open to user mode.

use vstd::prelude::*;

verus! {

pub const ENTRIES: usize = 512;
pub const PAGE_SIZE: u64 = 4096;
pub const PRESENT: u64 = 1;
pub const WRITABLE: u64 = 2;
pub const USER: u64 = 4;

/// The pages of a user address space and where its code is mapped.
pub struct AddressSpace {
    pml4: u64,
    pdpt: u64,
    pd: u64,
    pt: u64,
    code: u64,
    stack: u64,
    code_address: u64,
}

/// What the new tables hold: the top-level slot taken, and the entries
/// that link the tables down to the code and stack pages.
#[derive(Clone, Copy, Debug, PartialEq, Eq, Structural)]
pub struct TableEntries {
    pub slot: usize,
    pub pml4_entry: u64,
    pub pdpt_entry: u64,
    pub pd_entry: u64,
    pub code_entry: u64,
    pub stack_entry: u64,
}

/// The first empty entry of `table` at or after `i`.
pub open spec fn first_free(table: Seq<u64>, i: int) -> Option<int>
    decreases table.len() - i,
{
    if i < 0 || i >= table.len() {
        None
    } else if table[i] == 0 {
        Some(i)
    } else {
        first_free(table, i + 1)
    }
}

/// The address the top-level slot `slot` maps.
pub open spec fn canonical_address(slot: int) -> int {
    slot * 0x80_0000_0000
}

/// The top-level slot an address lies in.
pub open spec fn slot_of(address: u64) -> int {
    ((address >> 39u64) & 0x1ff) as int
}

/// Only `slot` of the top-level table lets user mode in, it does, the
/// code page is readable and the stack page writable from user mode.
pub open spec fn isolated(pml4: Seq<u64>, pt: Seq<u64>, slot: int) -> bool {
    &&& pml4[slot] & (PRESENT | USER) == PRESENT | USER
    &&& pt[0] & (PRESENT | WRITABLE | USER) == PRESENT | USER
    &&& pt[1] & (PRESENT | WRITABLE | USER) == PRESENT | WRITABLE | USER
    &&& forall|i: int| 0 <= i < ENTRIES && i != slot ==> #[trigger] pml4[i] & USER == 0
}

impl AddressSpace {
    pub closed spec fn spec_code_address(&self) -> u64 {
        self.code_address
    }

    /// The code address is that of a top-level slot.
    pub open spec fn wf(&self) -> bool {
        exists|slot: int| 0 <= slot < ENTRIES && self.spec_code_address() == canonical_address(slot)
    }

    /// The pages, top-level table first: top, directory pointer,
    /// directory, table, code, stack.
    pub closed spec fn spec_pages(&self) -> Seq<u64> {
        seq![self.pml4, self.pdpt, self.pd, self.pt, self.code, self.stack]
    }

    /// Lays out a user address space on `pages` (top, directory pointer,
    /// directory, table, code, stack), `pml4` being the kernel's top-level
    /// table as copied into the new top page: `None` when that table has
    /// no free slot.
    pub fn new(pml4: &[u64], pages: [u64; 6]) -> (r: Option<(AddressSpace, TableEntries)>)
        requires
            pml4@.len() == ENTRIES,
        ensures
            match first_free(pml4@, 0) {
                None => r is None,
                Some(slot) => r matches Some((space, entries)) && {
                    &&& entries.slot == slot
                    &&& entries.pml4_entry == pages[1] | PRESENT | WRITABLE | USER
                    &&& entries.pdpt_entry == pages[2] | PRESENT | WRITABLE | USER
                    &&& entries.pd_entry == pages[3] | PRESENT | WRITABLE | USER
                    &&& entries.code_entry == pages[4] | PRESENT | USER
                    &&& entries.stack_entry == pages[5] | PRESENT | WRITABLE | USER
                    &&& space.spec_code_address() == canonical_address(slot)
                    &&& space.spec_pages() == pages@
                    &&& space.wf()
                },
            },
    {
        let mut slot: usize = 0;
        while slot < ENTRIES && pml4[slot] != 0
            invariant
                slot <= ENTRIES,
                pml4@.len() == ENTRIES,
                first_free(pml4@, 0) == first_free(pml4@, slot as int),
            decreases ENTRIES - slot,
        {
            slot += 1;
        }
        if slot == ENTRIES {
            return None;
        }
        let entries = TableEntries {
            slot,
            pml4_entry: pages[1] | PRESENT | WRITABLE | USER,
            pdpt_entry: pages[2] | PRESENT | WRITABLE | USER,
            pd_entry: pages[3] | PRESENT | WRITABLE | USER,
            code_entry: pages[4] | PRESENT | USER,
            stack_entry: pages[5] | PRESENT | WRITABLE | USER,
        };
        let space = AddressSpace {
            pml4: pages[0],
            pdpt: pages[1],
            pd: pages[2],
            pt: pages[3],
            code: pages[4],
            stack: pages[5],
            code_address: slot as u64 * 0x80_0000_0000,
        };
        assert(space.spec_pages() =~= pages@);
        Some((space, entries))
    }

    /// Where the code page is mapped.
    pub fn code_address(&self) -> (r: u64)
        ensures
            r == self.spec_code_address(),
    {
        self.code_address
    }

    /// The top of the stack page, which follows the code page.
    pub fn stack_top(&self) -> (r: u64)
        requires
            self.wf(),
        ensures
            r == self.spec_code_address() + 2 * PAGE_SIZE,
    {
        self.code_address + PAGE_SIZE * 2
    }

    /// Whether the tables as read back, `pml4` from the top page and `pt`
    /// from the table page, open only this space's slot to user mode.
    pub fn verifies_isolation(&self, pml4: &[u64], pt: &[u64]) -> (r: bool)
        requires
            pml4@.len() == ENTRIES,
            pt@.len() >= 2,
        ensures
            r == isolated(pml4@, pt@, slot_of(self.spec_code_address())),
    {
        let code_address = self.code_address;
        let masked = (code_address >> 39u64) & 0x1ff;
        assert(masked < 512) by (bit_vector)
            requires
                masked == (code_address >> 39u64) & 0x1ff,
        ;
        let slot = masked as usize;
        if pml4[slot] & (PRESENT | USER) != PRESENT | USER {
            return false;
        }
        if pt[0] & (PRESENT | WRITABLE | USER) != PRESENT | USER {
            return false;
        }
        if pt[1] & (PRESENT | WRITABLE | USER) != PRESENT | WRITABLE | USER {
            return false;
        }
        let mut i: usize = 0;
        while i < ENTRIES
            invariant
                i <= ENTRIES,
                pml4@.len() == ENTRIES,
                slot == slot_of(self.spec_code_address()),
                forall|j: int| 0 <= j < i && j != slot ==> #[trigger] pml4@[j] & USER == 0,
            decreases ENTRIES - i,
        {
            if i != slot && pml4[i] & USER != 0 {
                assert(!(pml4@[i as int] & USER == 0));
                return false;
            }
            i += 1;
        }
        true
    }

    /// Gives the pages back, in the order they are released: stack, code,
    /// table, directory, directory pointer, top.
    pub fn release(self) -> (r: [u64; 6])
        ensures
            r@ == seq![
                self.spec_pages()[5],
                self.spec_pages()[4],
                self.spec_pages()[3],
                self.spec_pages()[2],
                self.spec_pages()[1],
                self.spec_pages()[0],
            ],
    {
        let r = [self.stack, self.code, self.pt, self.pd, self.pdpt, self.pml4];
        assert(r@ =~= seq![self.stack, self.code, self.pt, self.pd, self.pdpt, self.pml4]);
        r
    }
}

/// The slot an address space's isolation is checked at is the slot it
/// was laid out in, and its stack top fits an address.
pub proof fn lemma_code_address_slot(slot: int)
    requires
        0 <= slot < ENTRIES,
    ensures
        canonical_address(slot) + 2 * PAGE_SIZE <= u64::MAX,
        slot_of(canonical_address(slot) as u64) == slot,
{
    let s = slot as u64;
    let a = (slot * 0x80_0000_0000) as u64;
    assert(a == s * 0x80_0000_0000);
    assert((a >> 39u64) & 0x1ff == s) by (bit_vector)
        requires
            s < 512,
            a == s * 0x80_0000_0000,
    ;
}

} // verus!
