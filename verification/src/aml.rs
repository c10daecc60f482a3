//! Decoding of the AML byte code that describes PCI interrupt routing
//! (`_PRT` packages) and the `_S5_` sleep package.

use vstd::prelude::*;
use crate::acpi::{le_u16, le_u32, table_header, table_header_spec, HEADER_BYTES};

verus! {

/// An AML integer constant at the start of `b`: its value and the bytes it
/// takes (`ZeroOp`, `OneOp`, `OnesOp`, and the byte/word/dword prefixes).
pub open spec fn aml_integer_spec(b: Seq<u8>) -> Option<(u64, usize)> {
    if b.len() == 0 {
        None
    } else if b[0] == 0x00 {
        Some((0, 1))
    } else if b[0] == 0x01 {
        Some((1, 1))
    } else if b[0] == 0xff {
        Some((u64::MAX, 1))
    } else if b[0] == 0x0a {
        if b.len() >= 2 { Some((b[1] as u64, 2)) } else { None }
    } else if b[0] == 0x0b {
        if b.len() >= 3 { Some((le_u16(b, 1) as u64, 3)) } else { None }
    } else if b[0] == 0x0c {
        if b.len() >= 5 { Some((le_u32(b, 1) as u64, 5)) } else { None }
    } else {
        None
    }
}

/// An AML `PkgLength` at the start of `b`: the encoded length and the
/// number of bytes the encoding takes. The top two bits of the lead byte
/// count the follow bytes; the low nibble and the follow bytes, least
/// significant first, make up the length.
pub open spec fn package_length_spec(b: Seq<u8>) -> Option<(usize, usize)> {
    if b.len() == 0 {
        None
    } else {
        let extra = b[0] / 64;
        if b.len() < extra + 1 {
            None
        } else {
            let length = b[0] % 16 + (if extra >= 1 { b[1] * 16 } else { 0 }) + (if extra >= 2 {
                b[2] * 4096
            } else {
                0
            }) + (if extra >= 3 { b[3] * 1048576 } else { 0 });
            Some((length as usize, (extra + 1) as usize))
        }
    }
}

/// The index of the first byte at or after `i` that is not a root (`\`) or
/// parent (`^`) prefix.
pub open spec fn skip_name_prefixes(b: Seq<u8>, i: int) -> int
    decreases b.len() - i,
{
    if 0 <= i < b.len() && (b[i] == 0x5c || b[i] == 0x5e) {
        skip_name_prefixes(b, i + 1)
    } else {
        i
    }
}

/// An AML name string at the start of `b`: where it ends and its last name
/// segment, read as a little-endian 32-bit value.
pub open spec fn aml_name_spec(b: Seq<u8>) -> Option<(usize, u32)> {
    let o = skip_name_prefixes(b, 0);
    if o >= b.len() {
        None
    } else {
        let start_and_segments: Option<(int, int)> = if b[o] == 0x2e {
            Some((o + 1, 2))
        } else if b[o] == 0x2f {
            if o + 1 < b.len() { Some((o + 2, b[o + 1] as int)) } else { None }
        } else {
            Some((o, 1))
        };
        match start_and_segments {
            None => None,
            Some((start, segments)) => {
                let end = start + segments * 4;
                if end < 4 || end > b.len() {
                    None
                } else {
                    Some((end as usize, le_u32(b, end - 4) as u32))
                }
            },
        }
    }
}

pub fn read_le_u16_at(b: &[u8], at: usize) -> (r: u16)
    requires
        at + 2 <= b@.len(),
    ensures
        r == le_u16(b@, at as int),
{
    b[at] as u16 + b[at + 1] as u16 * 256
}

pub fn read_le_u32_at(b: &[u8], at: usize) -> (r: u32)
    requires
        at + 4 <= b@.len(),
    ensures
        r == le_u32(b@, at as int),
{
    b[at] as u32 + b[at + 1] as u32 * 256 + b[at + 2] as u32 * 65536 + b[at + 3] as u32
        * 16777216
}

/// Decode the AML integer that starts at `at`.
fn aml_integer(b: &[u8], at: usize) -> (r: Option<(u64, usize)>)
    requires
        at <= b@.len(),
    ensures
        r == aml_integer_spec(b@.subrange(at as int, b@.len() as int)),
{
    let ghost s = b@.subrange(at as int, b@.len() as int);
    if at >= b.len() {
        return None;
    }
    let lead = b[at];
    if lead == 0x00 {
        Some((0, 1))
    } else if lead == 0x01 {
        Some((1, 1))
    } else if lead == 0xff {
        Some((u64::MAX, 1))
    } else if lead == 0x0a {
        if b.len() - at >= 2 {
            Some((b[at + 1] as u64, 2))
        } else {
            None
        }
    } else if lead == 0x0b {
        if b.len() - at >= 3 {
            let v = read_le_u16_at(b, at + 1);
            assert(le_u16(s, 1) == le_u16(b@, at + 1));
            Some((v as u64, 3))
        } else {
            None
        }
    } else if lead == 0x0c {
        if b.len() - at >= 5 {
            let v = read_le_u32_at(b, at + 1);
            assert(le_u32(s, 1) == le_u32(b@, at + 1));
            Some((v as u64, 5))
        } else {
            None
        }
    } else {
        None
    }
}

/// Decode the `PkgLength` that starts at `at`.
fn package_length(b: &[u8], at: usize) -> (r: Option<(usize, usize)>)
    requires
        at <= b@.len(),
    ensures
        r == package_length_spec(b@.subrange(at as int, b@.len() as int)),
{
    if at >= b.len() {
        return None;
    }
    let lead = b[at];
    let extra = (lead / 64) as usize;
    if b.len() - at < extra + 1 {
        return None;
    }
    let mut length: usize = (lead % 16) as usize;
    if extra >= 1 {
        length = length + b[at + 1] as usize * 16;
    }
    if extra >= 2 {
        length = length + b[at + 2] as usize * 4096;
    }
    if extra >= 3 {
        length = length + b[at + 3] as usize * 1048576;
    }
    Some((length, extra + 1))
}

/// Decode the AML name string that starts at `at`.
fn aml_name(b: &[u8], at: usize) -> (r: Option<(usize, u32)>)
    requires
        at <= b@.len(),
    ensures
        r == aml_name_spec(b@.subrange(at as int, b@.len() as int)),
{
    let ghost s = b@.subrange(at as int, b@.len() as int);
    let mut o: usize = at;
    while o < b.len() && (b[o] == 0x5c || b[o] == 0x5e)
        invariant
            at <= o <= b@.len(),
            s == b@.subrange(at as int, b@.len() as int),
            skip_name_prefixes(s, 0) == skip_name_prefixes(s, o - at),
        decreases b@.len() - o,
    {
        assert(s[o - at] == b@[o as int]);
        assert(skip_name_prefixes(s, o - at) == skip_name_prefixes(s, o - at + 1));
        o += 1;
    }
    assert(skip_name_prefixes(s, o - at) == o - at);
    if o >= b.len() {
        return None;
    }
    let start: usize;
    let segments: usize;
    if b[o] == 0x2e {
        start = o + 1;
        segments = 2;
    } else if b[o] == 0x2f {
        if o + 1 >= b.len() {
            return None;
        }
        start = o + 2;
        segments = b[o + 1] as usize;
    } else {
        start = o;
        segments = 1;
    }
    let end = match start.checked_add(segments * 4) {
        Some(end) => end,
        None => return None,
    };
    if end - at < 4 || end > b.len() {
        return None;
    }
    let link = read_le_u32_at(b, end - 4);
    assert(le_u32(s, end - at - 4) == le_u32(b@, end - 4));
    Some((end - at, link))
}

/// Upper bound on the routes taken from one `_PRT` package.
pub const ROUTES: usize = 64;

/// One `_PRT` entry: PCI device, interrupt pin, and either a fixed global
/// system interrupt or the last name segment of the link device that
/// supplies it (`link` non-zero).
#[derive(Clone, Copy, Debug, PartialEq, Eq, Structural)]
pub struct PciRoute {
    pub device: u8,
    pub pin: u8,
    pub gsi: u32,
    pub link: u32,
}

pub open spec fn tail(b: Seq<u8>, at: int) -> Seq<u8> {
    b.subrange(at, b.len() as int)
}

/// A `_PRT` entry package body: address, pin, source, source index.
pub open spec fn parse_route_spec(b: Seq<u8>) -> Option<PciRoute> {
    match aml_integer_spec(b) {
        None => None,
        Some((address, used)) => match aml_integer_spec(tail(b, used as int)) {
            None => None,
            Some((pin, used_pin)) => {
                let source_offset = used + used_pin;
                if source_offset >= b.len() {
                    None
                } else {
                    let source: Option<(int, u32)> = if b[source_offset] == 0 {
                        Some((source_offset + 1, 0u32))
                    } else {
                        match aml_name_spec(tail(b, source_offset)) {
                            None => None,
                            Some((end, link)) => Some((end as int, link)),
                        }
                    };
                    match source {
                        None => None,
                        Some((source_end, link)) => {
                            let gsi: Option<u32> = if link == 0 {
                                if source_end > b.len() {
                                    None
                                } else {
                                    match aml_integer_spec(tail(b, source_end)) {
                                        None => None,
                                        Some((value, _)) => Some((value % 0x1_0000_0000) as u32),
                                    }
                                }
                            } else {
                                Some(0u32)
                            };
                            match gsi {
                                None => None,
                                Some(gsi) => Some(
                                    PciRoute {
                                        device: ((address / 65536) % 256) as u8,
                                        pin: (pin % 256) as u8,
                                        gsi,
                                        link,
                                    },
                                ),
                            }
                        },
                    }
                }
            },
        },
    }
}

proof fn lemma_tail_tail(b: Seq<u8>, i: int, j: int)
    requires
        0 <= i <= b.len(),
        0 <= j <= b.len() - i,
    ensures
        tail(tail(b, i), j) =~= tail(b, i + j),
{
}

/// Decode the `_PRT` entry body in `b[at..end]`.
fn parse_route(b: &[u8], at: usize, end: usize) -> (r: Option<PciRoute>)
    requires
        at <= end <= b@.len(),
    ensures
        r == parse_route_spec(b@.subrange(at as int, end as int)),
{
    let ghost s = b@.subrange(at as int, end as int);
    let v = slice_range(b, at, end);
    assert(v@ =~= s);
    assert(tail(v@, 0) =~= v@);
    let (address, used) = match aml_integer(&v, 0) {
        Some(x) => x,
        None => return None,
    };
    if used > v.len() {
        return None;
    }
    let (pin, used_pin) = match aml_integer(&v, used) {
        Some(x) => x,
        None => return None,
    };
    let source_offset = used + used_pin;
    if source_offset >= v.len() {
        return None;
    }
    let source_end: usize;
    let link: u32;
    if v[source_offset] == 0 {
        source_end = source_offset + 1;
        link = 0;
    } else {
        match aml_name(&v, source_offset) {
            Some((e, l)) => {
                source_end = e;
                link = l;
            },
            None => return None,
        }
    }
    let gsi: u32;
    if link == 0 {
        if source_end > v.len() {
            return None;
        }
        match aml_integer(&v, source_end) {
            Some((value, _)) => {
                gsi = (value % 0x1_0000_0000) as u32;
            },
            None => return None,
        }
    } else {
        gsi = 0;
    }
    Some(PciRoute { device: ((address / 65536) % 256) as u8, pin: (pin % 256) as u8, gsi, link })
}

/// A copy of `b[start..end]`.
pub fn slice_range(b: &[u8], start: usize, end: usize) -> (r: Vec<u8>)
    requires
        start <= end <= b@.len(),
    ensures
        r@ == b@.subrange(start as int, end as int),
{
    let mut out: Vec<u8> = Vec::new();
    let mut i = start;
    while i < end
        invariant
            start <= i <= end,
            end <= b@.len(),
            out@ == b@.subrange(start as int, i as int),
        decreases end - i,
    {
        out.push(b[i]);
        i += 1;
        assert(out@ =~= b@.subrange(start as int, i as int));
    }
    out
}

/// The `_PRT` entry at `offset` of a package body: `None` when no byte is
/// there, `Some(None)` when it does not decode, else the route and the
/// entry's extent as the decoder measures it.
pub open spec fn route_entry_spec(package: Seq<u8>, offset: int) -> Option<Option<(PciRoute, int)>> {
    let entry = tail(package, offset);
    if entry.len() == 0 {
        None
    } else {
        match package_length_spec(tail(entry, 1)) {
            None => Some(None),
            Some((entry_length, entry_header)) => {
                let entry_end = entry_header + entry_length;
                if entry[0] != 0x12 {
                    Some(None)
                } else if 2 + entry_header > entry_end || entry_end > entry.len() {
                    Some(None)
                } else {
                    match parse_route_spec(entry.subrange(2 + entry_header, entry_end)) {
                        None => Some(None),
                        Some(route) => Some(Some((route, entry_end as int))),
                    }
                }
            },
        }
    }
}

/// The routes read from the entries of a `_PRT` package body, from
/// `offset` on, with `remaining` entries still announced. Reading stops at
/// the first entry that does not decode, or when `ROUTES` routes are held;
/// `None` when an entry position holds no byte at all.
pub open spec fn route_entries(
    package: Seq<u8>,
    offset: int,
    remaining: int,
    found: Seq<PciRoute>,
) -> Option<Seq<PciRoute>>
    decreases remaining,
{
    if remaining <= 0 || offset < 0 || offset > package.len() {
        Some(found)
    } else {
        match route_entry_spec(package, offset) {
            None => None,
            Some(None) => Some(found),
            Some(Some((route, entry_end))) => {
                if found.len() >= ROUTES {
                    Some(found)
                } else {
                    route_entries(package, offset + entry_end, remaining - 1, found.push(route))
                }
            },
        }
    }
}

/// Decode the `_PRT` entry at `offset` of a package body.
fn route_entry(package: &[u8], offset: usize) -> (r: Option<Option<(PciRoute, usize)>>)
    requires
        offset <= package@.len(),
    ensures
        match r {
            None => route_entry_spec(package@, offset as int) is None,
            Some(None) => route_entry_spec(package@, offset as int) == Some(
                None::<(PciRoute, int)>,
            ),
            Some(Some((route, end))) => route_entry_spec(package@, offset as int) == Some(
                Some((route, end as int)),
            ) && offset + end <= package@.len(),
        },
{
    let ghost entry = tail(package@, offset as int);
    if offset >= package.len() {
        return None;
    }
    proof {
        lemma_tail_tail(package@, offset as int, 1);
        lemma_package_length_bounds(tail(entry, 1));
    }
    let (entry_length, entry_header) = match package_length(package, offset + 1) {
        Some(x) => x,
        None => return Some(None),
    };
    let entry_end = entry_header + entry_length;
    if package[offset] != 0x12 {
        return Some(None);
    }
    if 2 + entry_header > entry_end || entry_end > package.len() - offset {
        return Some(None);
    }
    assert(package@.subrange(offset + 2 + entry_header, offset + entry_end) =~= entry.subrange(
        2 + entry_header,
        entry_end as int,
    ));
    match parse_route(package, offset + 2 + entry_header, offset + entry_end) {
        Some(route) => Some(Some((route, entry_end))),
        None => Some(None),
    }
}

/// The routes of the `_PRT` package whose `PackageOp` is at the start of
/// `b`, when it yields at least one.
pub open spec fn parse_route_package_spec(b: Seq<u8>) -> Option<Seq<PciRoute>> {
    if b.len() == 0 {
        None
    } else {
        match package_length_spec(tail(b, 1)) {
            None => None,
            Some((length, header)) => {
                let end = 1 + header + length;
                if end > b.len() {
                    None
                } else {
                    let package = b.subrange(1 + header, end);
                    if package.len() == 0 {
                        None
                    } else {
                        match route_entries(package, 1, package[0] as int, Seq::empty()) {
                            None => None,
                            Some(found) => if found.len() > 0 {
                                Some(found)
                            } else {
                                None
                            },
                        }
                    }
                }
            },
        }
    }
}

proof fn lemma_package_length_bounds(b: Seq<u8>)
    ensures
        package_length_spec(b) matches Some((length, header)) ==> 1 <= header <= 4 && length
            < 0x1000_0000,
{
}

/// Decode the `_PRT` package whose `PackageOp` is at `at`.
fn parse_route_package(b: &[u8], at: usize) -> (r: Option<Vec<PciRoute>>)
    requires
        at <= b@.len(),
    ensures
        match r {
            Some(v) => parse_route_package_spec(tail(b@, at as int)) == Some(v@),
            None => parse_route_package_spec(tail(b@, at as int)) is None,
        },
{
    let ghost s = tail(b@, at as int);
    if at >= b.len() {
        return None;
    }
    proof {
        lemma_tail_tail(b@, at as int, 1);
        lemma_package_length_bounds(tail(s, 1));
    }
    let (length, header) = match package_length(b, at + 1) {
        Some(x) => x,
        None => return None,
    };
    if b.len() - at - 1 - header < length {
        return None;
    }
    let end = at + 1 + header + length;
    let package = slice_range(b, at + 1 + header, end);
    assert(package@ =~= s.subrange(1 + header, 1 + header + length));
    if package.len() == 0 {
        return None;
    }
    let count = package[0] as usize;
    let mut routes: Vec<PciRoute> = Vec::new();
    let mut offset: usize = 1;
    let mut index: usize = 0;
    while index < count
        invariant
            index <= count,
            offset <= package@.len(),
            routes@.len() <= ROUTES,
            route_entries(package@, 1, count as int, Seq::empty()) == route_entries(
                package@,
                offset as int,
                count - index,
                routes@,
            ),
            package@.len() > 0,
            count == package@[0],
            s == tail(b@, at as int),
            package_length_spec(tail(s, 1)) == Some((length, header)),
            1 + header + length <= s.len(),
            package@ == s.subrange(1 + header, 1 + header + length),
        ensures
            route_entries(package@, 1, count as int, Seq::empty()) == Some(routes@),
        decreases count - index,
    {
        let (route, entry_end) = match route_entry(&package, offset) {
            None => return None,
            Some(None) => break,
            Some(Some(x)) => x,
        };
        if routes.len() == ROUTES {
            break;
        }
        routes.push(route);
        offset = offset + entry_end;
        index += 1;
    }
    if routes.len() > 0 {
        Some(routes)
    } else {
        None
    }
}

/// The first extended interrupt descriptor (`0x89` with at least one
/// interrupt) whose nine bytes start at or after `p` and end by `end`:
/// its first interrupt number.
pub open spec fn descriptor_search(aml: Seq<u8>, p: int, end: int) -> Option<u32>
    decreases end - p,
{
    if p < 0 || p + 9 > end || end > aml.len() {
        None
    } else if aml[p] == 0x89 && aml[p + 4] > 0 {
        Some(le_u32(aml, p + 5) as u32)
    } else {
        descriptor_search(aml, p + 1, end)
    }
}

pub open spec fn link_search_bound(aml: Seq<u8>) -> int {
    if aml.len() >= 9 { aml.len() - 9 } else { 0 }
}

pub open spec fn min_int(a: int, b: int) -> int {
    if a <= b { a } else { b }
}

/// The interrupt of link device `link`: the first occurrence of the name
/// at or after `o` that is followed, within 128 bytes, by an extended
/// interrupt descriptor.
pub open spec fn link_search(aml: Seq<u8>, link: u32, o: int) -> Option<u32>
    decreases aml.len() - o,
{
    if o < 0 || o >= link_search_bound(aml) {
        None
    } else if le_u32(aml, o) == link && descriptor_search(
        aml,
        o + 4,
        min_int(aml.len() as int, o + 128),
    ) is Some {
        descriptor_search(aml, o + 4, min_int(aml.len() as int, o + 128))
    } else {
        link_search(aml, link, o + 1)
    }
}

fn descriptor_after(aml: &[u8], start: usize, end: usize) -> (r: Option<u32>)
    requires
        end <= aml@.len(),
    ensures
        r == descriptor_search(aml@, start as int, end as int),
{
    let mut p = start;
    while p <= end && end - p >= 9
        invariant
            end <= aml@.len(),
            descriptor_search(aml@, start as int, end as int) == descriptor_search(
                aml@,
                p as int,
                end as int,
            ),
        decreases end - p,
    {
        if aml[p] == 0x89 && aml[p + 4] > 0 {
            return Some(read_le_u32_at(aml, p + 5));
        }
        p += 1;
    }
    None
}

/// The global system interrupt that the link device named `link` reports.
fn link_gsi(aml: &[u8], link: u32) -> (r: Option<u32>)
    ensures
        r == link_search(aml@, link, 0),
{
    let bound = if aml.len() >= 9 { aml.len() - 9 } else { 0 };
    let mut o: usize = 0;
    while o < bound
        invariant
            bound == link_search_bound(aml@),
            o <= bound,
            link_search(aml@, link, 0) == link_search(aml@, link, o as int),
        decreases bound - o,
    {
        if read_le_u32_at(aml, o) == link {
            let end = if aml.len() - o < 128 { aml.len() } else { o + 128 };
            let found = descriptor_after(aml, o + 4, end);
            if found.is_some() {
                return found;
            }
        }
        o += 1;
    }
    None
}

/// A route with its link resolved to the interrupt the link reports.
pub open spec fn resolved_route(aml: Seq<u8>, route: PciRoute) -> PciRoute {
    if route.link == 0 {
        route
    } else {
        PciRoute { gsi: link_search(aml, route.link, 0).unwrap(), ..route }
    }
}

pub open spec fn links_resolve(aml: Seq<u8>, routes: Seq<PciRoute>) -> bool {
    forall|i: int|
        0 <= i < routes.len() && (#[trigger] routes[i]).link != 0 ==> link_search(
            aml,
            routes[i].link,
            0,
        ) is Some
}

/// Replace every route's link by the interrupt its link device reports;
/// `None` when some link device reports none.
fn resolve_links(aml: &[u8], routes: Vec<PciRoute>) -> (r: Option<Vec<PciRoute>>)
    ensures
        match r {
            Some(v) => links_resolve(aml@, routes@) && v@.len() == routes@.len() && forall|i: int|
                0 <= i < routes@.len() ==> #[trigger] v@[i] == resolved_route(aml@, routes@[i]),
            None => !links_resolve(aml@, routes@),
        },
{
    let mut out: Vec<PciRoute> = Vec::new();
    let mut i: usize = 0;
    while i < routes.len()
        invariant
            i <= routes@.len(),
            out@.len() == i,
            forall|j: int| 0 <= j < i ==> #[trigger] out@[j] == resolved_route(aml@, routes@[j]),
            forall|j: int|
                0 <= j < i && (#[trigger] routes@[j]).link != 0 ==> link_search(
                    aml@,
                    routes@[j].link,
                    0,
                ) is Some,
        decreases routes@.len() - i,
    {
        let route = routes[i];
        if route.link != 0 {
            match link_gsi(aml, route.link) {
                Some(gsi) => {
                    out.push(PciRoute { gsi, ..route });
                },
                None => {
                    assert(routes@[i as int].link != 0);
                    return None;
                },
            }
        } else {
            out.push(route);
        }
        i += 1;
    }
    Some(out)
}

/// Table signatures, as bytes.
pub const DSDT_SIGNATURE: [u8; 4] = [0x44, 0x53, 0x44, 0x54];
pub const SSDT_SIGNATURE: [u8; 4] = [0x53, 0x53, 0x44, 0x54];

/// `_PRT` as a little-endian 32-bit value.
pub const PRT_NAME: u32 = 0x5452_505f;

/// The first position at or after `p` where the four bytes read `name`.
pub open spec fn name_search(body: Seq<u8>, name: u32, p: int) -> Option<int>
    decreases body.len() - p,
{
    if p < 0 || p + 4 > body.len() {
        None
    } else if le_u32(body, p) == name {
        Some(p)
    } else {
        name_search(body, name, p + 1)
    }
}

/// The routes of the first `PackageOp` at or after `p` that decodes as a
/// `_PRT` package.
pub open spec fn package_search(body: Seq<u8>, p: int) -> Option<Seq<PciRoute>>
    decreases body.len() - p,
{
    if p < 0 || p >= body.len() {
        None
    } else if body[p] == 0x12 && parse_route_package_spec(tail(body, p)) is Some {
        parse_route_package_spec(tail(body, p))
    } else {
        package_search(body, p + 1)
    }
}

/// Scanning down from `r` to 1: the first `NameOp` for `reference` whose
/// value is followed by a decodable `_PRT` package.
pub open spec fn reference_search(body: Seq<u8>, reference: u32, r: int) -> Option<Seq<PciRoute>>
    decreases r,
{
    if r < 1 || r + 4 > body.len() {
        None
    } else if body[r - 1] == 0x08 && le_u32(body, r) == reference && package_search(body, r + 4)
        is Some {
        package_search(body, r + 4)
    } else {
        reference_search(body, reference, r - 1)
    }
}

pub open spec fn reference_start(body: Seq<u8>) -> int {
    if body.len() >= 5 { body.len() - 5 } else { -1 }
}

/// Scanning down from `r` to `low`: the first `ReturnOp` of a name whose
/// definition holds a decodable `_PRT` package.
pub open spec fn return_search(body: Seq<u8>, low: int, r: int) -> Option<Seq<PciRoute>>
    decreases r - low + 1,
{
    if r < low || r < 0 || r + 1 >= body.len() {
        None
    } else if body[r] == 0xa4 && aml_name_spec(tail(body, r + 1)) is Some && reference_search(
        body,
        aml_name_spec(tail(body, r + 1)).unwrap().1,
        reference_start(body),
    ) is Some {
        reference_search(body, aml_name_spec(tail(body, r + 1)).unwrap().1, reference_start(body))
    } else {
        return_search(body, low, r - 1)
    }
}

/// The routes with links resolved against `body`, or none at all when a
/// link does not resolve.
pub open spec fn resolved_or_empty(body: Seq<u8>, routes: Seq<PciRoute>) -> Seq<PciRoute> {
    if links_resolve(body, routes) {
        routes.map_values(|route: PciRoute| resolved_route(body, route))
    } else {
        Seq::empty()
    }
}

/// The routing that a DSDT or SSDT describes: the `_PRT` package after the
/// `_PRT` name or, failing that, the package behind the name that a method
/// after it returns.
pub open spec fn aml_routes_spec(table: Seq<u8>) -> Seq<PciRoute> {
    let header = match table_header_spec(table, DSDT_SIGNATURE@) {
        Some(length) => Some(length),
        None => table_header_spec(table, SSDT_SIGNATURE@),
    };
    match header {
        None => Seq::empty(),
        Some(length) => {
            let body = table.subrange(HEADER_BYTES as int, length as int);
            match name_search(body, PRT_NAME, 0) {
                None => Seq::empty(),
                Some(name) => match package_search(body, name + 4) {
                    Some(routes) => resolved_or_empty(body, routes),
                    None => match return_search(body, name + 4, body.len() - 2) {
                        Some(routes) => resolved_or_empty(body, routes),
                        None => Seq::empty(),
                    },
                },
            }
        },
    }
}

fn find_name(body: &[u8], name: u32) -> (r: Option<usize>)
    ensures
        match r {
            Some(p) => name_search(body@, name, 0) == Some(p as int) && p + 4 <= body@.len(),
            None => name_search(body@, name, 0) is None,
        },
{
    let mut p: usize = 0;
    while p < body.len() && body.len() - p >= 4
        invariant
            p <= body@.len(),
            name_search(body@, name, 0) == name_search(body@, name, p as int),
        decreases body@.len() - p,
    {
        if read_le_u32_at(body, p) == name {
            return Some(p);
        }
        p += 1;
    }
    None
}

fn find_package(body: &[u8], start: usize) -> (r: Option<Vec<PciRoute>>)
    ensures
        match r {
            Some(v) => package_search(body@, start as int) == Some(v@),
            None => package_search(body@, start as int) is None,
        },
{
    let mut p = start;
    while p < body.len()
        invariant
            start <= p,
            package_search(body@, start as int) == package_search(body@, p as int),
        decreases body@.len() - p,
    {
        if body[p] == 0x12 {
            if let Some(found) = parse_route_package(body, p) {
                return Some(found);
            }
        }
        p += 1;
    }
    None
}

fn find_reference(body: &[u8], reference: u32) -> (r: Option<Vec<PciRoute>>)
    ensures
        match r {
            Some(v) => reference_search(body@, reference, reference_start(body@)) == Some(v@),
            None => reference_search(body@, reference, reference_start(body@)) is None,
        },
{
    if body.len() < 5 {
        return None;
    }
    let mut r = body.len() - 5;
    while r >= 1
        invariant
            r + 5 <= body@.len(),
            reference_search(body@, reference, reference_start(body@)) == reference_search(
                body@,
                reference,
                r as int,
            ),
        decreases r,
    {
        if body[r - 1] == 0x08 && read_le_u32_at(body, r) == reference {
            if let Some(found) = find_package(body, r + 4) {
                return Some(found);
            }
        }
        r -= 1;
    }
    None
}

fn find_returned(body: &[u8], low: usize) -> (r: Option<Vec<PciRoute>>)
    ensures
        match r {
            Some(v) => return_search(body@, low as int, body@.len() - 2) == Some(v@),
            None => return_search(body@, low as int, body@.len() - 2) is None,
        },
{
    if body.len() < 2 {
        return None;
    }
    let mut r = body.len() - 2;
    loop
        invariant
            r + 2 <= body@.len(),
            return_search(body@, low as int, body@.len() - 2) == return_search(
                body@,
                low as int,
                r as int,
            ),
        decreases r,
    {
        if r < low {
            return None;
        }
        if body[r] == 0xa4 {
            if let Some((_, reference)) = aml_name(body, r + 1) {
                if let Some(found) = find_reference(body, reference) {
                    return Some(found);
                }
            }
        }
        if r == 0 {
            return None;
        }
        r -= 1;
    }
}

fn resolved_or_nothing(body: &[u8], routes: Vec<PciRoute>) -> (r: Vec<PciRoute>)
    ensures
        r@ == resolved_or_empty(body@, routes@),
{
    let ghost original = routes@;
    match resolve_links(body, routes) {
        Some(v) => {
            assert(v@ =~= original.map_values(|route: PciRoute| resolved_route(body@, route)));
            v
        },
        None => Vec::new(),
    }
}

/// The PCI routing that the DSDT or SSDT in `table` describes.
pub fn parse_aml_routes(table: &[u8]) -> (r: Vec<PciRoute>)
    ensures
        r@ == aml_routes_spec(table@),
{
    let header = match table_header(table, &DSDT_SIGNATURE) {
        Some(length) => Some(length),
        None => table_header(table, &SSDT_SIGNATURE),
    };
    let length = match header {
        Some(length) => length,
        None => return Vec::new(),
    };
    let body = slice_range(table, HEADER_BYTES, length as usize);
    let name = match find_name(&body, PRT_NAME) {
        Some(name) => name,
        None => return Vec::new(),
    };
    if let Some(found) = find_package(&body, name + 4) {
        return resolved_or_nothing(&body, found);
    }
    match find_returned(&body, name + 4) {
        Some(found) => resolved_or_nothing(&body, found),
        None => Vec::new(),
    }
}

/// Decode the AML integer that starts at `at`.
pub fn aml_integer_at(b: &[u8], at: usize) -> (r: Option<(u64, usize)>)
    requires
        at <= b@.len(),
    ensures
        r == aml_integer_spec(tail(b@, at as int)),
{
    aml_integer(b, at)
}

/// Decode the `PkgLength` that starts at `at`.
pub fn package_length_at(b: &[u8], at: usize) -> (r: Option<(usize, usize)>)
    requires
        at <= b@.len(),
    ensures
        r == package_length_spec(tail(b@, at as int)),
        r matches Some((length, header)) ==> 1 <= header <= 4 && length < 0x1000_0000,
{
    proof {
        lemma_package_length_bounds(tail(b@, at as int));
    }
    package_length(b, at)
}

} // verus!
