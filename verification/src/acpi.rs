//! ACPI table decoding: the MADT processor topology, the AML `_PRT`
//! interrupt routing, and the FADT reset and power-off registers.
//!
//! Everything here works on bytes copied out of firmware tables; finding
//! the tables in memory is the caller's business.

use vstd::prelude::*;
use crate::aml::{
    aml_integer_spec, aml_routes_spec, name_search, package_length_spec, parse_aml_routes, tail,
    PciRoute, DSDT_SIGNATURE, SSDT_SIGNATURE,
};

verus! {

pub const MAX_CPUS: usize = 8;

#[derive(Clone, Copy, Debug, PartialEq, Eq, Structural)]
pub struct Cpu {
    pub apic_id: u32,
    pub enabled: bool,
    pub bsp: bool,
}

impl Cpu {
    pub fn usable(self) -> (r: bool)
        ensures
            r == self.enabled,
    {
        self.enabled
    }
}

#[derive(Clone, Copy, Debug, PartialEq, Eq, Structural)]
pub enum TopologyError {
    Malformed,
}

/// Little-endian 32-bit value of the four bytes at `at`.
pub open spec fn le_u32(b: Seq<u8>, at: int) -> int {
    b[at] + b[at + 1] * 256 + b[at + 2] * 65536 + b[at + 3] * 16777216
}

/// Little-endian 16-bit value of the two bytes at `at`.
pub open spec fn le_u16(b: Seq<u8>, at: int) -> int {
    b[at] + b[at + 1] * 256
}

/// The processor described by the MADT entry at `offset` of `length` bytes:
/// `None` for a malformed processor record, `Some(None)` for an entry that
/// describes no processor, else the APIC id and flags.
pub open spec fn madt_processor(entries: Seq<u8>, offset: int, length: int) -> Option<
    Option<(u32, u32)>,
> {
    let kind = entries[offset];
    if kind == 0 {
        if length >= 8 {
            Some(Some((entries[offset + 3] as u32, le_u32(entries, offset + 4) as u32)))
        } else {
            None
        }
    } else if kind == 9 {
        if length >= 16 {
            Some(Some((le_u32(entries, offset + 4) as u32, le_u32(entries, offset + 8) as u32)))
        } else {
            None
        }
    } else {
        Some(None)
    }
}

pub open spec fn has_apic_id(cpus: Seq<Cpu>, apic_id: u32) -> bool {
    exists|j: int| 0 <= j < cpus.len() && #[trigger] cpus[j].apic_id == apic_id
}

/// The topology that the MADT entries from `offset` on add to `cpus`.
pub open spec fn topology_from(
    entries: Seq<u8>,
    offset: int,
    cpus: Seq<Cpu>,
    truncated: bool,
    bsp_apic_id: Option<u32>,
) -> Result<(Seq<Cpu>, bool), TopologyError>
    decreases entries.len() - offset,
{
    if offset >= entries.len() {
        Ok((cpus, truncated))
    } else if offset < 0 || offset + 1 >= entries.len() {
        Err(TopologyError::Malformed)
    } else {
        let length = entries[offset + 1] as int;
        if length < 2 || length > entries.len() - offset {
            Err(TopologyError::Malformed)
        } else {
            match madt_processor(entries, offset, length) {
                None => Err(TopologyError::Malformed),
                Some(None) => topology_from(entries, offset + length, cpus, truncated, bsp_apic_id),
                Some(Some((apic_id, flags))) => {
                    if has_apic_id(cpus, apic_id) {
                        Err(TopologyError::Malformed)
                    } else {
                        let cpu = Cpu {
                            apic_id,
                            enabled: flags & 3 != 0,
                            bsp: bsp_apic_id == Some(apic_id),
                        };
                        if cpus.len() >= MAX_CPUS {
                            topology_from(entries, offset + length, cpus, true, bsp_apic_id)
                        } else {
                            topology_from(
                                entries,
                                offset + length,
                                cpus.push(cpu),
                                truncated,
                                bsp_apic_id,
                            )
                        }
                    }
                },
            }
        }
    }
}

/// No two processors share an APIC id.
pub open spec fn distinct_apic_ids(cpus: Seq<Cpu>) -> bool {
    forall|i: int, j: int| 0 <= i < j < cpus.len() ==> #[trigger] cpus[i].apic_id != #[trigger] cpus[j].apic_id
}

/// The processors a topology decodes keep those it started from, in
/// order, followed by the later records, and their APIC ids stay
/// distinct.
pub proof fn lemma_topology_distinct(
    entries: Seq<u8>,
    offset: int,
    cpus: Seq<Cpu>,
    truncated: bool,
    bsp_apic_id: Option<u32>,
)
    requires
        distinct_apic_ids(cpus),
    ensures
        topology_from(entries, offset, cpus, truncated, bsp_apic_id) matches Ok((out, _)) ==> distinct_apic_ids(
            out,
        ) && out.take(cpus.len() as int) == cpus && cpus.len() <= out.len(),
    decreases entries.len() - offset,
{
    if offset >= entries.len() || offset < 0 || offset + 1 >= entries.len() {
        assert(cpus.take(cpus.len() as int) =~= cpus);
    } else {
        let length = entries[offset + 1] as int;
        if length < 2 || length > entries.len() - offset {
        } else {
            match madt_processor(entries, offset, length) {
                None => {},
                Some(None) => lemma_topology_distinct(entries, offset + length, cpus, truncated, bsp_apic_id),
                Some(Some((apic_id, flags))) => {
                    if !has_apic_id(cpus, apic_id) {
                        if cpus.len() >= MAX_CPUS {
                            lemma_topology_distinct(entries, offset + length, cpus, true, bsp_apic_id);
                        } else {
                            let cpu = Cpu { apic_id, enabled: flags & 3 != 0, bsp: bsp_apic_id == Some(apic_id) };
                            let next = cpus.push(cpu);
                            assert forall|i: int, j: int| 0 <= i < j < next.len() implies #[trigger] next[i].apic_id
                                != #[trigger] next[j].apic_id by {
                                if j == cpus.len() {
                                    assert(cpus[i].apic_id == next[i].apic_id);
                                }
                            }
                            lemma_topology_distinct(entries, offset + length, next, truncated, bsp_apic_id);
                            match topology_from(entries, offset + length, next, truncated, bsp_apic_id) {
                                Ok((out, _)) => {
                                    assert(out.take(cpus.len() as int) =~= out.take(next.len() as int).take(
                                        cpus.len() as int,
                                    ));
                                    assert(next.take(cpus.len() as int) =~= cpus);
                                },
                                Err(_) => {},
                            }
                        }
                    }
                },
            }
        }
    }
}

pub open spec fn is_first_bsp(cpus: Seq<Cpu>, i: int) -> bool {
    &&& 0 <= i < cpus.len()
    &&& cpus[i].bsp
    &&& forall|j: int| 0 <= j < i ==> !(#[trigger] cpus[j]).bsp
}

#[derive(Debug, PartialEq, Eq)]
pub struct CpuTopology {
    cpus: Vec<Cpu>,
    truncated: bool,
}

pub(crate) fn read_le_u32(bytes: &[u8], at: usize) -> (r: u32)
    requires
        at + 4 <= bytes@.len(),
    ensures
        r == le_u32(bytes@, at as int),
{
    bytes[at] as u32 + bytes[at + 1] as u32 * 256 + bytes[at + 2] as u32 * 65536 + bytes[at
        + 3] as u32 * 16777216
}

fn contains_apic_id(cpus: &Vec<Cpu>, apic_id: u32) -> (r: bool)
    ensures
        r == has_apic_id(cpus@, apic_id),
{
    let mut j: usize = 0;
    while j < cpus.len()
        invariant
            j <= cpus@.len(),
            forall|k: int| 0 <= k < j ==> (#[trigger] cpus@[k]).apic_id != apic_id,
        decreases cpus@.len() - j,
    {
        if cpus[j].apic_id == apic_id {
            assert(cpus@[j as int].apic_id == apic_id);
            return true;
        }
        j += 1;
    }
    false
}

impl CpuTopology {
    /// The processors recorded, in table order.
    pub closed spec fn cpus(&self) -> Seq<Cpu> {
        self.cpus@
    }

    pub closed spec fn is_truncated(&self) -> bool {
        self.truncated
    }

    pub open spec fn wf(&self) -> bool {
        self.cpus().len() <= MAX_CPUS
    }

    pub fn empty() -> (r: Self)
        ensures
            r.cpus() == Seq::<Cpu>::empty(),
            !r.is_truncated(),
            r.wf(),
    {
        CpuTopology { cpus: Vec::new(), truncated: false }
    }

    /// Decode the MADT interrupt-controller entries. Processor-local APIC
    /// (kind 0) and x2APIC (kind 9) records become CPUs; processors past
    /// `MAX_CPUS` are dropped and set the truncation flag.
    pub fn parse(entries: &[u8], bsp_apic_id: Option<u32>) -> (r: Result<Self, TopologyError>)
        ensures
            match (r, topology_from(entries@, 0, Seq::empty(), false, bsp_apic_id)) {
                (Ok(t), Ok((cpus, truncated))) => t.cpus() == cpus && t.is_truncated()
                    == truncated && t.wf(),
                (Err(e), Err(f)) => e == f,
                _ => false,
            },
            r matches Ok(t) ==> distinct_apic_ids(t.cpus()),
    {
        proof {
            lemma_topology_distinct(entries@, 0, Seq::empty(), false, bsp_apic_id);
        }
        let mut cpus: Vec<Cpu> = Vec::new();
        let mut truncated = false;
        let mut offset: usize = 0;
        while offset < entries.len()
            invariant
                offset <= entries@.len(),
                cpus@.len() <= MAX_CPUS,
                topology_from(entries@, 0, Seq::empty(), false, bsp_apic_id) == topology_from(
                    entries@,
                    offset as int,
                    cpus@,
                    truncated,
                    bsp_apic_id,
                ),
            decreases entries@.len() - offset,
        {
            let kind = entries[offset];
            if offset + 1 >= entries.len() {
                return Err(TopologyError::Malformed);
            }
            let length = entries[offset + 1] as usize;
            if length < 2 || length > entries.len() - offset {
                return Err(TopologyError::Malformed);
            }
            let processor: Option<(u32, u32)>;
            if kind == 0 {
                if length >= 8 {
                    processor = Some((entries[offset + 3] as u32, read_le_u32(entries, offset + 4)));
                } else {
                    return Err(TopologyError::Malformed);
                }
            } else if kind == 9 {
                if length >= 16 {
                    processor = Some(
                        (read_le_u32(entries, offset + 4), read_le_u32(entries, offset + 8)),
                    );
                } else {
                    return Err(TopologyError::Malformed);
                }
            } else {
                processor = None;
            }
            proof {
                assert(madt_processor(entries@, offset as int, length as int) == Some(processor));
            }
            if let Some((apic_id, flags)) = processor {
                if contains_apic_id(&cpus, apic_id) {
                    return Err(TopologyError::Malformed);
                }
                let cpu = Cpu {
                    apic_id,
                    enabled: flags & 3 != 0,
                    bsp: match bsp_apic_id {
                        Some(id) => id == apic_id,
                        None => false,
                    },
                };
                if cpus.len() == MAX_CPUS {
                    truncated = true;
                } else {
                    cpus.push(cpu);
                }
            }
            offset += length;
        }
        Ok(CpuTopology { cpus, truncated })
    }

    pub fn count(&self) -> (r: usize)
        ensures
            r == self.cpus().len(),
    {
        self.cpus.len()
    }

    pub fn truncated(&self) -> (r: bool)
        ensures
            r == self.is_truncated(),
    {
        self.truncated
    }

    pub fn get(&self, index: usize) -> (r: Option<Cpu>)
        ensures
            r == (if index < self.cpus().len() {
                Some(self.cpus()[index as int])
            } else {
                None
            }),
    {
        if index < self.cpus.len() {
            Some(self.cpus[index])
        } else {
            None
        }
    }

    /// The first processor marked as the bootstrap processor.
    pub fn bsp(&self) -> (r: Option<Cpu>)
        ensures
            match r {
                Some(cpu) => exists|i: int| is_first_bsp(self.cpus(), i) && self.cpus()[i] == cpu,
                None => forall|i: int| 0 <= i < self.cpus().len() ==> !(#[trigger] self.cpus()[i]).bsp,
            },
    {
        let mut i: usize = 0;
        while i < self.cpus.len()
            invariant
                i <= self.cpus@.len(),
                forall|j: int| 0 <= j < i ==> !(#[trigger] self.cpus@[j]).bsp,
            decreases self.cpus@.len() - i,
        {
            if self.cpus[i].bsp {
                proof {
                    assert(is_first_bsp(self.cpus(), i as int));
                }
                return Some(self.cpus[i]);
            }
            i += 1;
        }
        None
    }

    /// The enabled processors, in table order.
    pub fn usable(&self) -> (r: Vec<Cpu>)
        ensures
            r@ == self.cpus().filter(|cpu: Cpu| cpu.enabled),
    {
        let mut out: Vec<Cpu> = Vec::new();
        let mut i: usize = 0;
        while i < self.cpus.len()
            invariant
                i <= self.cpus@.len(),
                out@ == self.cpus@.take(i as int).filter(|cpu: Cpu| cpu.enabled),
            decreases self.cpus@.len() - i,
        {
            proof {
                reveal_with_fuel(Seq::<_>::filter, 1);
                assert(self.cpus@.take(i + 1).drop_last() =~= self.cpus@.take(i as int));
            }
            if self.cpus[i].usable() {
                out.push(self.cpus[i]);
            }
            i += 1;
        }
        proof {
            assert(self.cpus@.take(self.cpus@.len() as int) =~= self.cpus@);
        }
        out
    }
}

/// Bytes in the common ACPI table header.
pub const HEADER_BYTES: usize = 36;

/// Largest table length accepted.
pub const MAX_TABLE_BYTES: u32 = 1048576;

/// Sum of the first `n` bytes.
pub open spec fn byte_sum(b: Seq<u8>, n: int) -> int
    decreases n,
{
    if n <= 0 {
        0
    } else {
        byte_sum(b, n - 1) + b[n - 1]
    }
}

/// The first `length` bytes sum to zero modulo 256.
pub open spec fn checksum_spec(b: Seq<u8>, length: int) -> bool {
    byte_sum(b, length) % 256 == 0
}

/// `checksum_spec` over the first `length` bytes.
pub fn checksum(b: &[u8], length: usize) -> (r: bool)
    requires
        length <= b@.len(),
    ensures
        r == checksum_spec(b@, length as int),
{
    let mut sum: u8 = 0;
    let mut i: usize = 0;
    while i < length
        invariant
            i <= length <= b@.len(),
            sum == byte_sum(b@, i as int) % 256,
        decreases length - i,
    {
        proof {
            assert(byte_sum(b@, i + 1) == byte_sum(b@, i as int) + b@[i as int]);
        }
        sum = ((sum as u16 + b[i] as u16) % 256) as u8;
        i += 1;
    }
    sum == 0
}

/// The table in `table` carries `signature`, a length between the header
/// size and `MAX_TABLE_BYTES` that the bytes at hand cover, and a valid
/// checksum over that length.
pub open spec fn table_header_spec(table: Seq<u8>, signature: Seq<u8>) -> Option<u32> {
    if table.len() < HEADER_BYTES {
        None
    } else {
        let length = le_u32(table, 4);
        if table.subrange(0, 4) == signature && HEADER_BYTES <= length <= MAX_TABLE_BYTES
            && length <= table.len() && checksum_spec(table, length) {
            Some(length as u32)
        } else {
            None
        }
    }
}

fn read_le_u32_at(b: &[u8], at: usize) -> (r: u32)
    requires
        at + 4 <= b@.len(),
    ensures
        r == le_u32(b@, at as int),
{
    read_le_u32(b, at)
}

/// Validate the header of `table` against `signature`; the table length.
pub fn table_header(table: &[u8], signature: &[u8; 4]) -> (r: Option<u32>)
    ensures
        r == table_header_spec(table@, signature@),
{
    if table.len() < HEADER_BYTES {
        return None;
    }
    let length = read_le_u32_at(table, 4);
    let same = table[0] == signature[0] && table[1] == signature[1] && table[2] == signature[2]
        && table[3] == signature[3];
    proof {
        assert(same == (table@.subrange(0, 4) =~= signature@));
    }
    if same && HEADER_BYTES as u32 <= length && length <= MAX_TABLE_BYTES && length as usize
        <= table.len() && checksum(table, length as usize) {
        Some(length)
    } else {
        None
    }
}

pub const APIC_SIGNATURE: [u8; 4] = [0x41, 0x50, 0x49, 0x43];
pub const FACP_SIGNATURE: [u8; 4] = [0x46, 0x41, 0x43, 0x50];

/// `_S5_` as a little-endian 32-bit value.
pub const S5_NAME: u32 = 0x5f35_535f;

/// Little-endian 64-bit value of the eight bytes at `at`.
pub open spec fn le_u64(b: Seq<u8>, at: int) -> int {
    le_u32(b, at) + le_u32(b, at + 4) * 0x1_0000_0000
}

pub(crate) fn read_le_u64_at(b: &[u8], at: usize) -> (r: u64)
    requires
        at + 8 <= b@.len(),
    ensures
        r == le_u64(b@, at as int),
{
    let n = b.len();
    assert(at + 8 <= n);
    let low = read_le_u32(b, at) as u64;
    let high = read_le_u32(b, at + 4) as u64;
    assert(high * 0x1_0000_0000 <= 0xffff_ffff_0000_0000) by (nonlinear_arith)
        requires
            high <= 0xffff_ffff,
    ;
    low + high * 0x1_0000_0000
}

/// The FADT reset register, when it is an I/O port.
#[derive(Clone, Copy, Debug, PartialEq, Eq, Structural)]
pub struct Reset {
    pub port: u16,
    pub value: u8,
}

/// The PM1a control port and the `SLP_TYPa | SLP_EN` value that enters S5.
#[derive(Clone, Copy, Debug, PartialEq, Eq, Structural)]
pub struct Power {
    pub port: u16,
    pub value: u16,
}

pub open spec fn reset_spec(fadt: Seq<u8>) -> Option<Reset> {
    match table_header_spec(fadt, FACP_SIGNATURE@) {
        None => None,
        Some(length) => if length < 129 || fadt[116] != 1 || le_u64(fadt, 120) > u16::MAX {
            None
        } else {
            Some(Reset { port: le_u64(fadt, 120) as u16, value: fadt[128] })
        },
    }
}

/// The reset register of the FADT in `fadt`: an I/O port address space,
/// an address that fits a port, and the value to write.
pub fn parse_reset(fadt: &[u8]) -> (r: Option<Reset>)
    ensures
        r == reset_spec(fadt@),
{
    let length = match table_header(fadt, &FACP_SIGNATURE) {
        Some(length) => length,
        None => return None,
    };
    if length < 129 {
        return None;
    }
    let space = fadt[116];
    let address = read_le_u64_at(fadt, 120);
    let value = fadt[128];
    if space != 1 || address > u16::MAX as u64 {
        return None;
    }
    Some(Reset { port: address as u16, value })
}

/// The first `PackageOp` byte at or after `p`.
pub open spec fn package_op_search(body: Seq<u8>, p: int) -> Option<int>
    decreases body.len() - p,
{
    if p < 0 || p >= body.len() {
        None
    } else if body[p] == 0x12 {
        Some(p)
    } else {
        package_op_search(body, p + 1)
    }
}

/// The `SLP_TYPa | SLP_EN` control value for sleep type `sleep`.
pub open spec fn sleep_control(sleep: u64) -> u16 {
    (((sleep % 64) * 1024) as u16) | 0x2000u16
}

/// The S5 sleep type from the `_S5_` package in the DSDT body: both
/// sleep-type values must agree.
pub open spec fn s5_sleep_type(body: Seq<u8>) -> Option<u64> {
    match name_search(body, S5_NAME, 0) {
        None => None,
        Some(name) => match package_op_search(body, name + 4) {
            None => None,
            Some(package) => match package_length_spec(tail(body, package + 1)) {
                None => None,
                Some((length, header)) => {
                    let start = package + 1 + header;
                    let end = start + length;
                    if end > body.len() || start > end {
                        None
                    } else {
                        let values = body.subrange(start, end);
                        if values.len() < 1 {
                            None
                        } else {
                            match aml_integer_spec(tail(values, 1)) {
                                None => None,
                                Some((sleep, used)) => if used + 1 > values.len() {
                                    None
                                } else {
                                    match aml_integer_spec(tail(values, used + 1)) {
                                        None => None,
                                        Some((sleep_b, _)) => if sleep == sleep_b {
                                            Some(sleep)
                                        } else {
                                            None
                                        },
                                    }
                                },
                            }
                        }
                    }
                },
            },
        },
    }
}

pub open spec fn power_spec(fadt: Seq<u8>, dsdt: Seq<u8>) -> Option<Power> {
    match table_header_spec(fadt, FACP_SIGNATURE@) {
        None => None,
        Some(fadt_length) => if fadt_length < 90 {
            None
        } else {
            match table_header_spec(dsdt, DSDT_SIGNATURE@) {
                None => None,
                Some(dsdt_length) => match s5_sleep_type(
                    dsdt.subrange(HEADER_BYTES as int, dsdt_length as int),
                ) {
                    None => None,
                    Some(sleep) => if le_u32(fadt, 64) > u16::MAX {
                        None
                    } else {
                        Some(Power { port: le_u32(fadt, 64) as u16, value: sleep_control(sleep) })
                    },
                },
            }
        },
    }
}

fn find_s5_sleep_type(body: &[u8]) -> (r: Option<u64>)
    ensures
        r == s5_sleep_type(body@),
{
    let n = body.len();
    let mut name: usize = 0;
    loop
        invariant
            n == body@.len(),
            name <= body@.len(),
            name_search(body@, S5_NAME, 0) == name_search(body@, S5_NAME, name as int),
        ensures
            name + 4 <= body@.len(),
            name_search(body@, S5_NAME, 0) == Some(name as int),
        decreases body@.len() - name,
    {
        if body.len() - name < 4 {
            return None;
        }
        if read_le_u32(body, name) == S5_NAME {
            break;
        }
        name += 1;
    }
    let mut package = name + 4;
    loop
        invariant
            n == body@.len(),
            name + 4 <= package <= body@.len(),
            name_search(body@, S5_NAME, 0) == Some(name as int),
            package_op_search(body@, name + 4) == package_op_search(body@, package as int),
        ensures
            package < body@.len(),
            package_op_search(body@, name + 4) == Some(package as int),
        decreases body@.len() - package,
    {
        if package >= body.len() {
            return None;
        }
        if body[package] == 0x12 {
            break;
        }
        package += 1;
    }
    let (length, header) = match crate::aml::package_length_at(body, package + 1) {
        Some(x) => x,
        None => return None,
    };
    let start = package + 1 + header;
    if start > body.len() || body.len() - start < length {
        return None;
    }
    let values = crate::aml::slice_range(body, start, start + length);
    if values.len() < 1 {
        return None;
    }
    let (sleep, used) = match crate::aml::aml_integer_at(&values, 1) {
        Some(x) => x,
        None => return None,
    };
    if used + 1 > values.len() {
        return None;
    }
    let (sleep_b, _) = match crate::aml::aml_integer_at(&values, used + 1) {
        Some(x) => x,
        None => return None,
    };
    if sleep == sleep_b {
        Some(sleep)
    } else {
        None
    }
}

/// The S5 power-off register: the PM1a control port from the FADT and the
/// sleep type from the DSDT's `_S5_` package.
pub fn parse_power(fadt: &[u8], dsdt: &[u8]) -> (r: Option<Power>)
    ensures
        r == power_spec(fadt@, dsdt@),
{
    let fadt_length = match table_header(fadt, &FACP_SIGNATURE) {
        Some(length) => length,
        None => return None,
    };
    if fadt_length < 90 {
        return None;
    }
    let port = read_le_u32(fadt, 64);
    let dsdt_length = match table_header(dsdt, &DSDT_SIGNATURE) {
        Some(length) => length,
        None => return None,
    };
    let body = crate::aml::slice_range(dsdt, HEADER_BYTES, dsdt_length as usize);
    let sleep = match find_s5_sleep_type(&body) {
        Some(sleep) => sleep,
        None => return None,
    };
    if port > u16::MAX as u32 {
        return None;
    }
    Some(Power { port: port as u16, value: ((sleep % 64) as u16 * 1024) | 0x2000u16 })
}

/// The DSDT address that the FADT in `fadt` records, when the table
/// is long enough to hold it.
pub fn fadt_dsdt_address(fadt: &[u8]) -> (r: Option<u32>)
    ensures
        r == (if fadt@.len() >= 44 { Some(le_u32(fadt@, 40) as u32) } else { None::<u32> }),
{
    if fadt.len() >= 44 {
        Some(read_le_u32(fadt, 40))
    } else {
        None
    }
}

pub open spec fn pci_routes_spec(fadt: Seq<u8>, dsdt: Seq<u8>) -> Seq<PciRoute> {
    match table_header_spec(fadt, FACP_SIGNATURE@) {
        None => Seq::empty(),
        Some(length) => if length < 44 || table_header_spec(dsdt, DSDT_SIGNATURE@) is None {
            Seq::empty()
        } else {
            aml_routes_spec(dsdt)
        },
    }
}

/// The PCI routing of the DSDT that the FADT in `fadt` points to.
pub fn parse_pci_routes(fadt: &[u8], dsdt: &[u8]) -> (r: Vec<PciRoute>)
    ensures
        r@ == pci_routes_spec(fadt@, dsdt@),
{
    let length = match table_header(fadt, &FACP_SIGNATURE) {
        Some(length) => length,
        None => return Vec::new(),
    };
    if length < 44 || table_header(dsdt, &DSDT_SIGNATURE).is_none() {
        return Vec::new();
    }
    parse_aml_routes(dsdt)
}

/// The first I/O APIC entry (kind 1) in the MADT entries from `offset`
/// on, once `io_apic` is still zero: its address and first interrupt.
/// `None` when an entry length is malformed.
pub open spec fn io_apic_scan(entries: Seq<u8>, offset: int, io_apic: u32, gsi_base: u32) -> Option<
    (u32, u32),
>
    decreases entries.len() - offset,
{
    if offset < 0 || offset + 2 > entries.len() {
        Some((io_apic, gsi_base))
    } else {
        let kind = entries[offset];
        let length = entries[offset + 1] as int;
        if length < 2 || offset + length > entries.len() {
            None
        } else if kind == 1 && length >= 12 && io_apic == 0 {
            io_apic_scan(
                entries,
                offset + length,
                le_u32(entries, offset + 4) as u32,
                le_u32(entries, offset + 8) as u32,
            )
        } else {
            io_apic_scan(entries, offset + length, io_apic, gsi_base)
        }
    }
}

/// Bytes before the first MADT interrupt-controller entry.
pub const MADT_ENTRIES_OFFSET: usize = 44;

/// The decoded MADT: local APIC address, the first I/O APIC, and the
/// processor topology.
#[derive(Debug)]
pub struct Madt {
    pub local_apic: usize,
    pub io_apic: usize,
    pub io_apic_gsi_base: u32,
    pub topology: CpuTopology,
}

pub open spec fn madt_matches(
    madt: Madt,
    table: Seq<u8>,
    bsp_apic_id: Option<u32>,
) -> bool {
    match table_header_spec(table, APIC_SIGNATURE@) {
        None => false,
        Some(length) => {
            let entries = table.subrange(MADT_ENTRIES_OFFSET as int, length as int);
            &&& length >= MADT_ENTRIES_OFFSET
            &&& madt.local_apic == le_u32(table, HEADER_BYTES as int)
            &&& topology_from(entries, 0, Seq::empty(), false, bsp_apic_id) == Ok::<_, TopologyError>(
                (madt.topology.cpus(), madt.topology.is_truncated()),
            )
            &&& io_apic_scan(entries, 0, 0, 0) == Some((madt.io_apic as u32, madt.io_apic_gsi_base))
            &&& madt.io_apic != 0
            &&& madt.topology.wf()
        },
    }
}

pub open spec fn madt_exists(table: Seq<u8>, bsp_apic_id: Option<u32>) -> bool {
    match table_header_spec(table, APIC_SIGNATURE@) {
        None => false,
        Some(length) => {
            let entries = table.subrange(MADT_ENTRIES_OFFSET as int, length as int);
            &&& length >= MADT_ENTRIES_OFFSET
            &&& topology_from(entries, 0, Seq::empty(), false, bsp_apic_id) is Ok
            &&& io_apic_scan(entries, 0, 0, 0) matches Some((io_apic, _)) && io_apic != 0
        },
    }
}

/// Decode the MADT in `table`; `bsp_apic_id` is the APIC id of the
/// processor running this code.
pub fn parse_madt(table: &[u8], bsp_apic_id: Option<u32>) -> (r: Option<Madt>)
    ensures
        match r {
            Some(madt) => madt_matches(madt, table@, bsp_apic_id),
            None => !madt_exists(table@, bsp_apic_id),
        },
{
    let length = match table_header(table, &APIC_SIGNATURE) {
        Some(length) => length as usize,
        None => return None,
    };
    if length < MADT_ENTRIES_OFFSET {
        return None;
    }
    let local_apic = read_le_u32(table, HEADER_BYTES);
    let entries = crate::aml::slice_range(table, MADT_ENTRIES_OFFSET, length);
    let topology = match CpuTopology::parse(&entries, bsp_apic_id) {
        Ok(topology) => topology,
        Err(_) => return None,
    };
    let n = entries.len();
    let mut io_apic: u32 = 0;
    let mut gsi_base: u32 = 0;
    let mut offset: usize = 0;
    while offset <= n && n - offset >= 2
        invariant
            n == entries@.len(),
            offset <= n,
            table_header_spec(table@, APIC_SIGNATURE@) == Some(length as u32),
            length >= MADT_ENTRIES_OFFSET,
            length <= table@.len(),
            length <= u32::MAX,
            entries@ == table@.subrange(MADT_ENTRIES_OFFSET as int, length as int),
            io_apic_scan(entries@, 0, 0, 0) == io_apic_scan(entries@, offset as int, io_apic, gsi_base),
        decreases n - offset,
    {
        let kind = entries[offset];
        let entry_length = entries[offset + 1] as usize;
        if entry_length < 2 || entry_length > n - offset {
            return None;
        }
        if kind == 1 && entry_length >= 12 && io_apic == 0 {
            io_apic = read_le_u32(&entries, offset + 4);
            gsi_base = read_le_u32(&entries, offset + 8);
        }
        offset += entry_length;
    }
    if io_apic == 0 {
        return None;
    }
    Some(Madt { local_apic: local_apic as usize, io_apic: io_apic as usize, io_apic_gsi_base: gsi_base, topology })
}

/// The first route at or after `i` for `device` and `pin`: its interrupt.
pub open spec fn route_lookup(routes: Seq<PciRoute>, device: u8, pin: u8, i: int) -> Option<u32>
    decreases routes.len() - i,
{
    if i < 0 || i >= routes.len() {
        None
    } else if routes[i].device == device && routes[i].pin == pin {
        Some(routes[i].gsi)
    } else {
        route_lookup(routes, device, pin, i + 1)
    }
}

/// Route `k` is for `device` and `pin`.
pub open spec fn routes_to(routes: Seq<PciRoute>, k: int, device: u8, pin: u8) -> bool {
    routes[k].device == device && routes[k].pin == pin
}

/// Looking up the interrupt of a device's pin: when one is found, it is
/// the interrupt of a route for exactly that device and that pin, the
/// first such route; none is found only when no route is for that device
/// and pin.
pub proof fn lemma_route_lookup_matches_device_and_pin(routes: Seq<PciRoute>, device: u8, pin: u8, i: int)
    requires
        0 <= i,
    ensures
        route_lookup(routes, device, pin, i) matches Some(gsi) ==> exists|k: int|
            i <= k < routes.len() && #[trigger] routes_to(routes, k, device, pin) && routes[k].gsi == gsi && forall|
                j: int,
            | i <= j < k ==> !#[trigger] routes_to(routes, j, device, pin),
        route_lookup(routes, device, pin, i) is None <==> forall|k: int|
            i <= k < routes.len() ==> !#[trigger] routes_to(routes, k, device, pin),
    decreases routes.len() - i,
{
    if i < routes.len() {
        lemma_route_lookup_matches_device_and_pin(routes, device, pin, i + 1);
        if routes_to(routes, i, device, pin) {
            assert(routes_to(routes, i, device, pin));
        } else {
            if route_lookup(routes, device, pin, i + 1) is Some {
                let gsi = route_lookup(routes, device, pin, i + 1).unwrap();
                let k = choose|k: int|
                    i + 1 <= k < routes.len() && #[trigger] routes_to(routes, k, device, pin) && routes[k].gsi == gsi
                        && forall|j: int| i + 1 <= j < k ==> !#[trigger] routes_to(routes, j, device, pin);
                assert forall|j: int| i <= j < k implies !#[trigger] routes_to(routes, j, device, pin) by {
                    if j > i {
                        assert(i + 1 <= j < k);
                    }
                }
            }
        }
    }
}

/// What the kernel keeps from the firmware tables: the XSDT address, the
/// MADT, PCI interrupt routing, and the reset and power-off registers.
#[derive(Debug)]
pub struct Tables {
    pub xsdt: u64,
    pub madt: Option<Madt>,
    pub routes: Vec<PciRoute>,
    pub reset: Option<Reset>,
    pub power: Option<Power>,
}

impl Tables {
    pub open spec fn routes(&self) -> Seq<PciRoute> {
        self.routes@
    }

    pub open spec fn reset_register(&self) -> Option<Reset> {
        self.reset
    }

    pub open spec fn power_register(&self) -> Option<Power> {
        self.power
    }

    /// Tables found through the XSDT at `xsdt`, before any has been read.
    pub fn new(xsdt: u64) -> (r: Self)
        ensures
            r.xsdt == xsdt,
            r.madt is None,
            r.routes() == Seq::<PciRoute>::empty(),
            r.reset_register() is None,
            r.power_register() is None,
    {
        Tables { xsdt, madt: None, routes: Vec::new(), reset: None, power: None }
    }

    /// Take in the table that an XSDT entry points to, in XSDT order. A
    /// valid MADT replaces the MADT; a valid FADT replaces routing (from
    /// `dsdt`, the table its DSDT pointer names), reset and power registers;
    /// a valid SSDT replaces routing when it describes some. Other tables
    /// change nothing.
    pub fn record_table(&mut self, table: &[u8], dsdt: &[u8], bsp_apic_id: Option<u32>)
        ensures
            final(self).xsdt == old(self).xsdt,
            if table_header_spec(table@, APIC_SIGNATURE@) is Some {
                &&& (match final(self).madt {
                    Some(madt) => madt_matches(madt, table@, bsp_apic_id),
                    None => !madt_exists(table@, bsp_apic_id),
                })
                &&& final(self).routes() == old(self).routes()
                &&& final(self).reset_register() == old(self).reset_register()
                &&& final(self).power_register() == old(self).power_register()
            } else if table_header_spec(table@, FACP_SIGNATURE@) is Some {
                &&& final(self).madt == old(self).madt
                &&& final(self).routes() == pci_routes_spec(table@, dsdt@)
                &&& final(self).reset_register() == reset_spec(table@)
                &&& final(self).power_register() == power_spec(table@, dsdt@)
            } else {
                &&& final(self).madt == old(self).madt
                &&& final(self).routes() == (if table_header_spec(table@, SSDT_SIGNATURE@) is Some
                    && aml_routes_spec(table@).len() > 0 {
                    aml_routes_spec(table@)
                } else {
                    old(self).routes()
                })
                &&& final(self).reset_register() == old(self).reset_register()
                &&& final(self).power_register() == old(self).power_register()
            },
    {
        if table_header(table, &APIC_SIGNATURE).is_some() {
            self.madt = parse_madt(table, bsp_apic_id);
        } else if table_header(table, &FACP_SIGNATURE).is_some() {
            self.routes = parse_pci_routes(table, dsdt);
            self.reset = parse_reset(table);
            self.power = parse_power(table, dsdt);
        } else if table_header(table, &SSDT_SIGNATURE).is_some() {
            let routes = parse_aml_routes(table);
            if routes.len() > 0 {
                self.routes = routes;
            }
        }
    }

    pub fn has_power(&self) -> (r: bool)
        ensures
            r == self.power_register() is Some,
    {
        self.power.is_some()
    }

    /// The interrupt routed to `pin` of `device` on PCI bus 0.
    pub fn pci_gsi(&self, bus: u8, device: u8, pin: u8) -> (r: Option<u32>)
        ensures
            r == (if bus == 0 {
                route_lookup(self.routes(), device, pin, 0)
            } else {
                None
            }),
    {
        if bus != 0 {
            return None;
        }
        let mut i: usize = 0;
        while i < self.routes.len()
            invariant
                bus == 0,
                i <= self.routes@.len(),
                route_lookup(self.routes@, device, pin, 0) == route_lookup(
                    self.routes@,
                    device,
                    pin,
                    i as int,
                ),
            decreases self.routes@.len() - i,
        {
            if self.routes[i].device == device && self.routes[i].pin == pin {
                return Some(self.routes[i].gsi);
            }
            i += 1;
        }
        None
    }

    /// The registers to publish for reset and power-off: the reset register
    /// when there is one, and the power register only beside it.
    pub fn reset_registers(&self) -> (r: (Option<Reset>, Option<Power>))
        ensures
            r == (match self.reset_register() {
                Some(reset) => (Some(reset), self.power_register()),
                None => (None, None),
            }),
    {
        match self.reset {
            Some(reset) => (Some(reset), self.power),
            None => (None, None),
        }
    }
}

/// `XSDT`
pub const XSDT_SIGNATURE: [u8; 4] = [0x58, 0x53, 0x44, 0x54];
/// `RSD PTR `
pub const RSDP_SIGNATURE: [u8; 8] = [0x52, 0x53, 0x44, 0x20, 0x50, 0x54, 0x52, 0x20];
/// Bytes of an ACPI 2 root pointer.
pub const RSDP_BYTES: usize = 36;

/// The XSDT address an ACPI 2 root pointer gives: signature, revision
/// 2 or later, a length that covers the structure and the bytes at hand,
/// both checksums, and a non-zero address.
pub open spec fn rsdp_xsdt_spec(rsdp: Seq<u8>) -> Option<u64> {
    if rsdp.len() < RSDP_BYTES {
        None
    } else {
        let length = le_u32(rsdp, 20);
        if rsdp.subrange(0, 8) == RSDP_SIGNATURE@ && rsdp[15] >= 2 && RSDP_BYTES <= length <= rsdp.len()
            && checksum_spec(rsdp, 20) && checksum_spec(rsdp, length) && le_u64(rsdp, 24) != 0 {
            Some(le_u64(rsdp, 24) as u64)
        } else {
            None
        }
    }
}

/// Validate an ACPI 2 root pointer; the XSDT address it holds.
pub fn rsdp_xsdt(rsdp: &[u8]) -> (r: Option<u64>)
    ensures
        r == rsdp_xsdt_spec(rsdp@),
{
    if rsdp.len() < RSDP_BYTES {
        return None;
    }
    let mut same = true;
    let mut i: usize = 0;
    while i < 8
        invariant
            i <= 8,
            rsdp@.len() >= RSDP_BYTES,
            same == (rsdp@.subrange(0, i as int) =~= RSDP_SIGNATURE@.subrange(0, i as int)),
        decreases 8 - i,
    {
        let ghost before = same;
        same = same && rsdp[i] == RSDP_SIGNATURE[i];
        proof {
            if before && rsdp@[i as int] == RSDP_SIGNATURE@[i as int] {
                assert(rsdp@.subrange(0, i + 1) =~= RSDP_SIGNATURE@.subrange(0, i + 1));
            } else if !before {
                assert(!(rsdp@.subrange(0, i + 1) =~= RSDP_SIGNATURE@.subrange(0, i + 1))) by {
                    if rsdp@.subrange(0, i + 1) =~= RSDP_SIGNATURE@.subrange(0, i + 1) {
                        assert(rsdp@.subrange(0, i as int) =~= RSDP_SIGNATURE@.subrange(0, i as int));
                    }
                }
            } else {
                assert(rsdp@.subrange(0, i + 1)[i as int] != RSDP_SIGNATURE@.subrange(0, i + 1)[i as int]);
            }
        }
        i += 1;
    }
    assert(RSDP_SIGNATURE@.subrange(0, 8) =~= RSDP_SIGNATURE@);
    let length = read_le_u32(rsdp, 20) as usize;
    let address = read_le_u64_at(rsdp, 24);
    if same && rsdp[15] >= 2 && RSDP_BYTES <= length && length <= rsdp.len() && checksum(rsdp, 20) && checksum(
        rsdp,
        length,
    ) && address != 0 {
        Some(address)
    } else {
        None
    }
}

/// The table addresses an XSDT lists, when its header is valid.
pub open spec fn xsdt_entries_spec(xsdt: Seq<u8>) -> Seq<u64> {
    match table_header_spec(xsdt, XSDT_SIGNATURE@) {
        None => Seq::empty(),
        Some(length) => Seq::new(
            ((length - HEADER_BYTES) / 8) as nat,
            |i: int| le_u64(xsdt, HEADER_BYTES + 8 * i) as u64,
        ),
    }
}

/// The table addresses an XSDT lists; none when its header is invalid.
pub fn xsdt_entries(xsdt: &[u8]) -> (r: Vec<u64>)
    ensures
        r@ == xsdt_entries_spec(xsdt@),
{
    let mut out: Vec<u64> = Vec::new();
    let length = match table_header(xsdt, &XSDT_SIGNATURE) {
        None => {
            assert(out@ =~= xsdt_entries_spec(xsdt@));
            return out;
        },
        Some(length) => length as usize,
    };
    let count = (length - HEADER_BYTES) / 8;
    let mut i: usize = 0;
    while i < count
        invariant
            i <= count,
            count == (length - HEADER_BYTES) / 8,
            HEADER_BYTES <= length <= xsdt@.len(),
            table_header_spec(xsdt@, XSDT_SIGNATURE@) == Some(length as u32),
            out@.len() == i,
            forall|j: int| 0 <= j < i ==> #[trigger] out@[j] == le_u64(xsdt@, HEADER_BYTES + 8 * j) as u64,
        decreases count - i,
    {
        assert(HEADER_BYTES + 8 * i + 8 <= length) by (nonlinear_arith)
            requires
                i < count,
                count == (length - HEADER_BYTES) / 8,
                HEADER_BYTES <= length,
        ;
        out.push(read_le_u64_at(xsdt, HEADER_BYTES + 8 * i));
        i += 1;
    }
    assert(out@ =~= xsdt_entries_spec(xsdt@));
    out
}

} // verus!
