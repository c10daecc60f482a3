use logos::address_space::{AddressSpace, ENTRIES, PRESENT, USER, WRITABLE};

const PAGES: [u64; 6] = [0x1000, 0x2000, 0x3000, 0x4000, 0x5000, 0x6000];

#[test]
fn user_space_takes_the_first_free_top_level_slot() {
    let mut pml4 = [0u64; ENTRIES];
    pml4[0] = 0x9000 | PRESENT | WRITABLE;
    pml4[1] = 0xa000 | PRESENT;
    let (space, entries) = AddressSpace::new(&pml4, PAGES).unwrap();
    assert_eq!(entries.slot, 2);
    assert_eq!(entries.pml4_entry, 0x2000 | PRESENT | WRITABLE | USER);
    assert_eq!(entries.pdpt_entry, 0x3000 | PRESENT | WRITABLE | USER);
    assert_eq!(entries.pd_entry, 0x4000 | PRESENT | WRITABLE | USER);
    assert_eq!(entries.code_entry, 0x5000 | PRESENT | USER);
    assert_eq!(entries.stack_entry, 0x6000 | PRESENT | WRITABLE | USER);
    assert_eq!(space.code_address(), 2 << 39);
    assert_eq!(space.stack_top(), (2 << 39) + 2 * 4096);

    pml4[2] = entries.pml4_entry;
    let pt = [entries.code_entry, entries.stack_entry];
    assert!(space.verifies_isolation(&pml4, &pt));
    let mut leaky = pml4;
    leaky[0] |= USER;
    assert!(!space.verifies_isolation(&leaky, &pt));
    let writable_code = [entries.code_entry | WRITABLE, entries.stack_entry];
    assert!(!space.verifies_isolation(&pml4, &writable_code));
    assert_eq!(space.release(), [0x6000, 0x5000, 0x4000, 0x3000, 0x2000, 0x1000]);
}

#[test]
fn a_full_top_level_table_leaves_no_room() {
    let pml4 = [1u64; ENTRIES];
    assert!(AddressSpace::new(&pml4, PAGES).is_none());
}
