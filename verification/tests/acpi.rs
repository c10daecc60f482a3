use logos::acpi::{rsdp_xsdt, xsdt_entries, CpuTopology, TopologyError, MAX_CPUS};

#[test]
fn parses_mixed_processor_records_and_marks_bsp() {
    let entries = [
        0, 8, 0, 2, 1, 0, 0, 0, // Local APIC 2, enabled.
        0, 8, 0, 3, 0, 0, 0, 0, // Local APIC 3, disabled.
        9, 16, 0, 0, 4, 0, 0, 0, 1, 0, 0, 0, 0, 0, 0, 0,
    ];
    let topology = CpuTopology::parse(&entries, Some(2)).unwrap();
    assert_eq!(topology.count(), 3);
    let first = topology.get(0).unwrap();
    assert_eq!(first.apic_id, 2);
    assert!(first.enabled);
    assert!(first.bsp);
    let second = topology.get(1).unwrap();
    assert_eq!(second.apic_id, 3);
    assert!(!second.enabled);
    assert!(!second.bsp);
    let third = topology.get(2).unwrap();
    assert_eq!(third.apic_id, 4);
    assert!(third.enabled);
    assert!(!third.bsp);
    assert_eq!(topology.bsp().unwrap().apic_id, first.apic_id);
    assert_eq!(topology.usable().len(), 2);
}

#[test]
fn rejects_malformed_processor_entries() {
    assert_eq!(CpuTopology::parse(&[0, 7, 0, 2, 1, 0, 0], None), Err(TopologyError::Malformed));
    assert_eq!(CpuTopology::parse(&[9, 15, 0, 0], None), Err(TopologyError::Malformed));
}

#[test]
fn truncates_excess_processors_without_growing() {
    let mut entries = [0u8; (MAX_CPUS + 1) * 8];
    for (index, entry) in entries.chunks_exact_mut(8).enumerate() {
        entry[0] = 0;
        entry[1] = 8;
        entry[3] = index as u8;
        entry[4] = 1;
    }
    let topology = CpuTopology::parse(&entries, None).unwrap();
    assert_eq!(topology.count(), MAX_CPUS);
    assert!(topology.truncated());
}

#[test]
fn duplicate_apic_ids_and_short_headers_are_malformed() {
    let duplicate = [0, 8, 0, 5, 1, 0, 0, 0, 0, 8, 0, 5, 1, 0, 0, 0];
    assert_eq!(CpuTopology::parse(&duplicate, None).err(), Some(TopologyError::Malformed));
    assert_eq!(CpuTopology::parse(&[0], None).err(), Some(TopologyError::Malformed));
    assert_eq!(CpuTopology::parse(&[3, 1], None).err(), Some(TopologyError::Malformed));
    let other = CpuTopology::parse(&[3, 2, 7, 4, 0, 0], None).unwrap();
    assert_eq!(other.count(), 0);
    assert!(other.bsp().is_none());
    assert!(other.get(0).is_none());
}

#[test]
fn x2apic_ids_are_little_endian() {
    let entries = [9, 16, 0, 0, 0x78, 0x56, 0x34, 0x12, 3, 0, 0, 0, 0, 0, 0, 0];
    let topology = CpuTopology::parse(&entries, Some(0x1234_5678)).unwrap();
    let cpu = topology.get(0).unwrap();
    assert_eq!(cpu.apic_id, 0x1234_5678);
    assert!(cpu.enabled && cpu.bsp);
}

fn with_checksum(mut bytes: Vec<u8>, length: usize, at: usize) -> Vec<u8> {
    bytes[at] = 0;
    let sum = bytes[..length].iter().fold(0u8, |sum, byte| sum.wrapping_add(*byte));
    bytes[at] = 0u8.wrapping_sub(sum);
    bytes
}

fn rsdp(xsdt: u64, revision: u8) -> Vec<u8> {
    let mut bytes = vec![0u8; 36];
    bytes[..8].copy_from_slice(b"RSD PTR ");
    bytes[15] = revision;
    bytes[20..24].copy_from_slice(&36u32.to_le_bytes());
    bytes[24..32].copy_from_slice(&xsdt.to_le_bytes());
    let bytes = with_checksum(bytes, 20, 8);
    with_checksum(bytes, 36, 32)
}

#[test]
fn root_pointer_gives_the_xsdt_address() {
    assert_eq!(rsdp_xsdt(&rsdp(0x7fe1_4000, 2)), Some(0x7fe1_4000));
    assert_eq!(rsdp_xsdt(&rsdp(0x7fe1_4000, 1)), None);
    assert_eq!(rsdp_xsdt(&rsdp(0, 2)), None);
    let mut corrupt = rsdp(0x7fe1_4000, 2);
    corrupt[24] ^= 1;
    assert_eq!(rsdp_xsdt(&corrupt), None);
    assert_eq!(rsdp_xsdt(&rsdp(0x7fe1_4000, 2)[..35]), None);
}

#[test]
fn xsdt_lists_table_addresses() {
    let mut xsdt = vec![0u8; 52];
    xsdt[..4].copy_from_slice(b"XSDT");
    xsdt[4..8].copy_from_slice(&52u32.to_le_bytes());
    xsdt[36..44].copy_from_slice(&0x1000u64.to_le_bytes());
    xsdt[44..52].copy_from_slice(&0x2000u64.to_le_bytes());
    let xsdt = with_checksum(xsdt, 52, 9);
    assert_eq!(xsdt_entries(&xsdt), vec![0x1000, 0x2000]);
    let mut bad = xsdt.clone();
    bad[0] = b'Y';
    assert!(xsdt_entries(&bad).is_empty());
}
