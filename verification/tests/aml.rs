use logos::acpi::{
    checksum, fadt_dsdt_address, parse_madt, parse_pci_routes, parse_power, parse_reset, table_header,
    Power, Reset, Tables,
};
use logos::aml::parse_aml_routes;

fn table(signature: &[u8; 4], body: &[u8]) -> Vec<u8> {
    let length = 36 + body.len();
    let mut bytes = vec![0u8; 36];
    bytes[..4].copy_from_slice(signature);
    bytes[4..8].copy_from_slice(&(length as u32).to_le_bytes());
    bytes[8] = 2;
    bytes.extend_from_slice(body);
    let sum = bytes.iter().fold(0u8, |a, b| a.wrapping_add(*b));
    bytes[9] = 0u8.wrapping_sub(sum);
    bytes
}

fn prt_body() -> Vec<u8> {
    // A two-byte package length: 0x40 | low nibble, then the next eight bits.
    let mut body = vec![0x08, b'_', b'P', b'R', b'T', 0x12, 0x4d, 0x01, 0x02];
    // Device 3, pin A, fixed interrupt 16.
    body.extend_from_slice(&[0x12, 0x0b, 0x04, 0x0c, 0xff, 0xff, 0x03, 0x00, 0x00, 0x00, 0x0a, 0x10]);
    // Device 4, pin B, routed through link LNKA.
    body.extend_from_slice(&[
        0x12, 0x0d, 0x04, 0x0c, 0xff, 0xff, 0x04, 0x00, 0x01, b'L', b'N', b'K', b'A', 0x00,
    ]);
    // The link device with an extended interrupt descriptor for 42.
    body.extend_from_slice(&[0x5b, 0x82, b'L', b'N', b'K', b'A', 0x89, 0x06, 0x00, 0x03, 0x01, 42, 0, 0, 0]);
    body
}

fn s5_body() -> Vec<u8> {
    vec![0x08, b'_', b'S', b'5', b'_', 0x12, 0x08, 0x04, 0x0a, 0x05, 0x0a, 0x05, 0x00, 0x00, 0xa3]
}

fn fadt(dsdt_address: u32, pm1a: u32, reset_port: u64) -> Vec<u8> {
    let mut body = vec![0u8; 129 - 36];
    body[40 - 36..44 - 36].copy_from_slice(&dsdt_address.to_le_bytes());
    body[64 - 36..68 - 36].copy_from_slice(&pm1a.to_le_bytes());
    body[116 - 36] = 1;
    body[120 - 36..128 - 36].copy_from_slice(&reset_port.to_le_bytes());
    body[128 - 36] = 6;
    table(b"FACP", &body)
}

#[test]
fn headers_need_signature_length_and_checksum() {
    let dsdt = table(b"DSDT", &prt_body());
    assert!(checksum(&dsdt, dsdt.len()));
    assert_eq!(table_header(&dsdt, b"DSDT"), Some(dsdt.len() as u32));
    assert_eq!(table_header(&dsdt, b"SSDT"), None);
    let mut corrupt = dsdt.clone();
    corrupt[40] ^= 1;
    assert_eq!(table_header(&corrupt, b"DSDT"), None);
    assert_eq!(table_header(&dsdt[..20], b"DSDT"), None);
}

#[test]
fn prt_routes_resolve_fixed_and_linked_interrupts() {
    let dsdt = table(b"DSDT", &prt_body());
    let routes = parse_aml_routes(&dsdt);
    assert_eq!(routes.len(), 2);
    assert_eq!((routes[0].device, routes[0].pin, routes[0].gsi, routes[0].link), (3, 0, 16, 0));
    assert_eq!((routes[1].device, routes[1].pin, routes[1].gsi), (4, 1, 42));
    assert_ne!(routes[1].link, 0);
}

#[test]
fn unresolvable_links_drop_the_whole_routing() {
    let mut body = prt_body();
    let len = body.len();
    body.truncate(len - 15);
    let dsdt = table(b"DSDT", &body);
    assert!(parse_aml_routes(&dsdt).is_empty());
}

#[test]
fn fadt_yields_reset_power_and_routes() {
    let mut dsdt_body = prt_body();
    dsdt_body.extend_from_slice(&s5_body());
    let dsdt = table(b"DSDT", &dsdt_body);
    let fadt = fadt(0x1234_5000, 0x604, 0xcf9);
    assert_eq!(fadt_dsdt_address(&fadt), Some(0x1234_5000));
    assert_eq!(parse_reset(&fadt), Some(Reset { port: 0xcf9, value: 6 }));
    assert_eq!(parse_power(&fadt, &dsdt), Some(Power { port: 0x604, value: (5 << 10) | (1 << 13) }));
    assert_eq!(parse_pci_routes(&fadt, &dsdt).len(), 2);
    let wide = self::fadt(0, 0x604, 0x1_0000);
    assert_eq!(parse_reset(&wide), None);

    let mut tables = Tables::new(0xe000);
    tables.record_table(&fadt, &dsdt, None);
    assert!(tables.has_power());
    assert_eq!(tables.pci_gsi(0, 4, 1), Some(42));
    assert_eq!(tables.pci_gsi(0, 3, 0), Some(16));
    assert_eq!(tables.pci_gsi(1, 3, 0), None);
    assert_eq!(tables.pci_gsi(0, 9, 0), None);
    assert_eq!(
        tables.reset_registers(),
        (Some(Reset { port: 0xcf9, value: 6 }), Some(Power { port: 0x604, value: 0x3400 }))
    );
}

#[test]
fn madt_needs_an_io_apic() {
    let mut body = vec![0x00, 0x00, 0xe0, 0xfe, 0x01, 0x00, 0x00, 0x00];
    body.extend_from_slice(&[0, 8, 0, 1, 1, 0, 0, 0]);
    let without = table(b"APIC", &body);
    assert!(parse_madt(&without, Some(1)).is_none());
    body.extend_from_slice(&[1, 12, 0, 0, 0x00, 0x00, 0xc0, 0xfe, 0x00, 0x00, 0x00, 0x00]);
    let with = table(b"APIC", &body);
    let madt = parse_madt(&with, Some(1)).unwrap();
    assert_eq!(madt.local_apic, 0xfee0_0000);
    assert_eq!(madt.io_apic, 0xfec0_0000);
    assert_eq!(madt.io_apic_gsi_base, 0);
    assert_eq!(madt.topology.count(), 1);
    assert!(madt.topology.bsp().is_some());
    let mut tables = Tables::new(0);
    tables.record_table(&with, &[], Some(1));
    assert!(tables.madt.is_some());
    assert!(!tables.has_power());
}
