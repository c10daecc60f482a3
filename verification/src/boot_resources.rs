//! Fixed resources published by the firmware handoff: the copied and
//! validated framebuffer, memory map, and keyboard resources that later
//! kernel and service code may keep.

use vstd::prelude::*;

verus! {

pub const PAGE_SIZE: u64 = 4096;

/// Largest framebuffer accepted, in bytes.
pub const MAX_FRAMEBUFFER_BYTES: u64 = 0x0200_0000;

/// Capacity of the memory map.
pub const MAX_MEMORY_DESCRIPTORS: usize = 256;

#[derive(Clone, Copy, Debug, PartialEq, Eq, Structural)]
pub enum PixelFormat {
    Bgr8,
    Rgb8,
}

#[derive(Clone, Copy, Debug, PartialEq, Eq, Structural)]
pub struct FramebufferInfo {
    base: u64,
    bytes: u64,
    width: u32,
    height: u32,
    stride: u32,
    format: PixelFormat,
}

/// A framebuffer description is accepted when it is page aligned, not
/// empty, within the size limit, and large enough for `height` rows of
/// `stride` 32-bit pixels with `stride >= width`.
pub open spec fn framebuffer_valid(base: u64, bytes: u64, width: u32, height: u32, stride: u32) -> bool {
    &&& base != 0
    &&& base % PAGE_SIZE == 0
    &&& bytes != 0
    &&& bytes <= MAX_FRAMEBUFFER_BYTES
    &&& width != 0
    &&& height != 0
    &&& stride >= width
    &&& height * stride * 4 <= bytes
}

impl FramebufferInfo {
    pub closed spec fn spec_base(self) -> u64 { self.base }
    pub closed spec fn spec_bytes(self) -> u64 { self.bytes }
    pub closed spec fn spec_width(self) -> u32 { self.width }
    pub closed spec fn spec_height(self) -> u32 { self.height }
    pub closed spec fn spec_stride(self) -> u32 { self.stride }
    pub closed spec fn spec_format(self) -> PixelFormat { self.format }

    pub fn new(base: u64, bytes: u64, width: u32, height: u32, stride: u32, format: PixelFormat) -> (r:
        Option<Self>)
        ensures
            match r {
                Some(info) => framebuffer_valid(base, bytes, width, height, stride)
                    && info.spec_base() == base && info.spec_bytes() == bytes && info.spec_width()
                    == width && info.spec_height() == height && info.spec_stride() == stride
                    && info.spec_format() == format,
                None => !framebuffer_valid(base, bytes, width, height, stride),
            },
    {
        if base == 0 || base % PAGE_SIZE != 0 || bytes == 0 || bytes > MAX_FRAMEBUFFER_BYTES
            || width == 0 || height == 0 || stride < width {
            return None;
        }
        let rows = height as u64;
        let columns = stride as u64;
        assert(rows * columns <= 0xffff_ffff * 0xffff_ffff) by (nonlinear_arith)
            requires
                rows <= 0xffff_ffff,
                columns <= 0xffff_ffff,
        ;
        let pixels = rows * columns;
        if pixels > u64::MAX / 4 {
            return None;
        }
        let required = pixels * 4;
        if required <= bytes {
            Some(FramebufferInfo { base, bytes, width, height, stride, format })
        } else {
            None
        }
    }

    pub fn base(self) -> (r: u64)
        ensures
            r == self.spec_base(),
    {
        self.base
    }

    pub fn bytes(self) -> (r: u64)
        ensures
            r == self.spec_bytes(),
    {
        self.bytes
    }

    pub fn width(self) -> (r: u32)
        ensures
            r == self.spec_width(),
    {
        self.width
    }

    pub fn height(self) -> (r: u32)
        ensures
            r == self.spec_height(),
    {
        self.height
    }

    pub fn stride(self) -> (r: u32)
        ensures
            r == self.spec_stride(),
    {
        self.stride
    }

    pub fn format(self) -> (r: PixelFormat)
        ensures
            r == self.spec_format(),
    {
        self.format
    }
}

#[derive(Clone, Copy, Debug, PartialEq, Eq, Structural)]
pub struct MemoryDescriptor {
    pub physical_start: u64,
    pub pages: u64,
    pub available: bool,
}

/// One past the last byte of the range, when it fits in 64 bits.
pub open spec fn descriptor_end(d: MemoryDescriptor) -> Option<u64> {
    if d.physical_start + d.pages * PAGE_SIZE <= u64::MAX {
        Some((d.physical_start + d.pages * PAGE_SIZE) as u64)
    } else {
        None
    }
}

impl MemoryDescriptor {
    pub fn new(physical_start: u64, pages: u64, available: bool) -> (r: Option<Self>)
        ensures
            r == (if physical_start % PAGE_SIZE != 0 || pages == 0 {
                None
            } else {
                Some(MemoryDescriptor { physical_start, pages, available })
            }),
    {
        if physical_start % PAGE_SIZE != 0 || pages == 0 {
            return None;
        }
        Some(MemoryDescriptor { physical_start, pages, available })
    }

    pub fn end(self) -> (r: Option<u64>)
        ensures
            r == descriptor_end(self),
    {
        if self.pages > u64::MAX / PAGE_SIZE {
            return None;
        }
        let length = self.pages * PAGE_SIZE;
        self.physical_start.checked_add(length)
    }
}

#[derive(Clone, Copy, Debug, PartialEq, Eq, Structural)]
pub enum ResourceError {
    Capacity,
    InvalidMemoryDescriptor,
    InvalidFramebuffer,
}

/// Pages of the available descriptors among the first `n`.
pub open spec fn available_pages_of(entries: Seq<MemoryDescriptor>, n: int) -> int
    decreases n,
{
    if n <= 0 {
        0
    } else {
        available_pages_of(entries, n - 1) + (if entries[n - 1].available {
            entries[n - 1].pages as int
        } else {
            0
        })
    }
}

/// A bounded copy of the firmware memory map.
#[derive(Clone, Debug)]
pub struct MemoryMap {
    entries: Vec<MemoryDescriptor>,
}

impl MemoryMap {
    /// The descriptors held, in the order they were pushed.
    pub closed spec fn entries(&self) -> Seq<MemoryDescriptor> {
        self.entries@
    }

    /// At most `MAX_MEMORY_DESCRIPTORS` entries, each of whose ranges fits
    /// in 64 bits.
    pub open spec fn wf(&self) -> bool {
        &&& self.entries().len() <= MAX_MEMORY_DESCRIPTORS
        &&& forall|i: int| 0 <= i < self.entries().len() ==> descriptor_end(#[trigger] self.entries()[i]) is Some
    }

    pub fn new() -> (r: Self)
        ensures
            r.entries() == Seq::<MemoryDescriptor>::empty(),
            r.wf(),
    {
        MemoryMap { entries: Vec::new() }
    }

    pub fn push(&mut self, descriptor: MemoryDescriptor) -> (r: Result<(), ResourceError>)
        requires
            old(self).wf(),
        ensures
            final(self).wf(),
            descriptor_end(descriptor) is None ==> r == Err::<(), ResourceError>(
                ResourceError::InvalidMemoryDescriptor,
            ) && final(self).entries() == old(self).entries(),
            descriptor_end(descriptor) is Some && old(self).entries().len()
                == MAX_MEMORY_DESCRIPTORS ==> r == Err::<(), ResourceError>(ResourceError::Capacity)
                && final(self).entries() == old(self).entries(),
            descriptor_end(descriptor) is Some && old(self).entries().len() < MAX_MEMORY_DESCRIPTORS
                ==> r == Ok::<(), ResourceError>(()) && final(self).entries() == old(
                self,
            ).entries().push(descriptor),
    {
        if descriptor.end().is_none() {
            return Err(ResourceError::InvalidMemoryDescriptor);
        }
        if self.entries.len() >= MAX_MEMORY_DESCRIPTORS {
            return Err(ResourceError::Capacity);
        }
        self.entries.push(descriptor);
        Ok(())
    }

    pub fn len(&self) -> (r: usize)
        ensures
            r == self.entries().len(),
    {
        self.entries.len()
    }

    pub fn is_empty(&self) -> (r: bool)
        ensures
            r == (self.entries().len() == 0),
    {
        self.entries.len() == 0
    }

    pub fn get(&self, index: usize) -> (r: Option<MemoryDescriptor>)
        ensures
            r == (if index < self.entries().len() {
                Some(self.entries()[index as int])
            } else {
                None
            }),
    {
        if index < self.entries.len() {
            Some(self.entries[index])
        } else {
            None
        }
    }

    /// Total pages of the available descriptors.
    pub fn available_pages(&self) -> (r: u64)
        requires
            self.wf(),
        ensures
            r == available_pages_of(self.entries(), self.entries().len() as int),
    {
        let mut total: u64 = 0;
        let mut i: usize = 0;
        while i < self.entries.len()
            invariant
                self.wf(),
                i <= self.entries@.len(),
                total == available_pages_of(self.entries@, i as int),
                total <= i * (u64::MAX / PAGE_SIZE),
            decreases self.entries@.len() - i,
        {
            let entry = self.entries[i];
            assert(descriptor_end(self.entries@[i as int]) is Some);
            assert(available_pages_of(self.entries@, i + 1) == available_pages_of(
                self.entries@,
                i as int,
            ) + (if entry.available { entry.pages as int } else { 0 }));
            assert(i * (u64::MAX / PAGE_SIZE) <= (i + 1) * (u64::MAX / PAGE_SIZE)) by (nonlinear_arith);
            if entry.available {
                assert(entry.pages <= u64::MAX / PAGE_SIZE) by (nonlinear_arith)
                    requires
                        entry.physical_start + entry.pages * 4096 <= u64::MAX,
                ;
                assert(total + entry.pages <= (i + 1) * (u64::MAX / PAGE_SIZE)) by (nonlinear_arith)
                    requires
                        total <= i * (u64::MAX / 4096),
                        entry.pages <= u64::MAX / 4096,
                ;
                assert((i + 1) * (u64::MAX / PAGE_SIZE) <= u64::MAX) by (nonlinear_arith)
                    requires
                        i < 256,
                ;
                total = total + entry.pages;
            }
            i += 1;
        }
        total
    }
}

#[derive(Clone, Copy, Debug, PartialEq, Eq, Structural)]
pub struct KeyboardResource {
    pub irq: u8,
    pub data_port: u16,
}

impl KeyboardResource {
    /// The legacy PS/2 controller: IRQ 1, data port 0x60.
    pub fn ps2() -> (r: Self)
        ensures
            r == (KeyboardResource { irq: 1, data_port: 0x60 }),
    {
        KeyboardResource { irq: 1, data_port: 0x60 }
    }
}

/// The resources handed from the firmware to the kernel.
#[derive(Clone, Debug)]
pub struct BootResources {
    memory_map: MemoryMap,
    framebuffer: Option<FramebufferInfo>,
    keyboard: KeyboardResource,
}

impl BootResources {
    pub closed spec fn spec_memory_map(&self) -> MemoryMap {
        self.memory_map
    }

    pub closed spec fn spec_framebuffer(&self) -> Option<FramebufferInfo> {
        self.framebuffer
    }

    pub closed spec fn spec_keyboard(&self) -> KeyboardResource {
        self.keyboard
    }

    pub fn new(memory_map: MemoryMap, keyboard: KeyboardResource) -> (r: Self)
        ensures
            r.spec_memory_map() == memory_map,
            r.spec_framebuffer() is None,
            r.spec_keyboard() == keyboard,
    {
        BootResources { memory_map, framebuffer: None, keyboard }
    }

    pub fn publish_framebuffer(&mut self, framebuffer: FramebufferInfo)
        ensures
            final(self).spec_framebuffer() == Some(framebuffer),
            final(self).spec_memory_map() == old(self).spec_memory_map(),
            final(self).spec_keyboard() == old(self).spec_keyboard(),
    {
        self.framebuffer = Some(framebuffer);
    }

    pub fn memory_map(&self) -> (r: &MemoryMap)
        ensures
            *r == self.spec_memory_map(),
    {
        &self.memory_map
    }

    pub fn framebuffer(&self) -> (r: Option<FramebufferInfo>)
        ensures
            r == self.spec_framebuffer(),
    {
        self.framebuffer
    }

    pub fn keyboard(&self) -> (r: KeyboardResource)
        ensures
            r == self.spec_keyboard(),
    {
        self.keyboard
    }
}

/// The smallest screen the terminal's 80 by 25 grid of 8 by 16 glyphs
/// fits on.
pub const MIN_FRAMEBUFFER_WIDTH: u64 = 640;
pub const MIN_FRAMEBUFFER_HEIGHT: u64 = 400;

/// A display mode the firmware offers: its size, its row stride in
/// pixels, and its pixel format when it is one the kernel draws.
#[derive(Clone, Copy, Debug, PartialEq, Eq)]
pub struct ModeCandidate {
    pub width: u64,
    pub height: u64,
    pub stride: u64,
    pub format: Option<PixelFormat>,
}

/// A mode the kernel can use: large enough, drawable, and with a
/// framebuffer within the size limit.
pub open spec fn mode_usable(c: ModeCandidate) -> bool {
    &&& c.width >= MIN_FRAMEBUFFER_WIDTH
    &&& c.height >= MIN_FRAMEBUFFER_HEIGHT
    &&& c.format is Some
    &&& c.height * c.stride * 4 <= MAX_FRAMEBUFFER_BYTES
}

/// A mode's area, saturating.
pub open spec fn mode_area(c: ModeCandidate) -> int {
    if c.width * c.height > u64::MAX {
        u64::MAX as int
    } else {
        c.width * c.height
    }
}

/// Among modes `i` on, the usable one with the smallest area, the first
/// of equals; `best` is the choice so far.
pub open spec fn choose_mode(modes: Seq<ModeCandidate>, i: int, best: Option<int>) -> Option<int>
    decreases modes.len() - i,
{
    if i < 0 || i >= modes.len() {
        best
    } else if mode_usable(modes[i]) && (match best {
        None => true,
        Some(b) => mode_area(modes[i]) < mode_area(modes[b]),
    }) {
        choose_mode(modes, i + 1, Some(i))
    } else {
        choose_mode(modes, i + 1, best)
    }
}

fn mode_area_of(c: ModeCandidate) -> (r: u64)
    ensures
        r == mode_area(c),
{
    match c.width.checked_mul(c.height) {
        Some(area) => area,
        None => u64::MAX,
    }
}

/// The display mode to use: the usable mode with the smallest area, so
/// the terminal's window stays small; `None` when no mode is usable.
pub fn select_mode(modes: &[ModeCandidate]) -> (r: Option<usize>)
    ensures
        match r {
            Some(i) => choose_mode(modes@, 0, None) == Some(i as int),
            None => choose_mode(modes@, 0, None) is None,
        },
{
    let mut best: Option<usize> = None;
    let mut best_area: u64 = 0;
    let mut i: usize = 0;
    while i < modes.len()
        invariant
            i <= modes@.len(),
            choose_mode(modes@, 0, None) == choose_mode(
                modes@,
                i as int,
                match best {
                    Some(b) => Some(b as int),
                    None => None,
                },
            ),
            best matches Some(b) ==> b < modes@.len() && best_area == mode_area(modes@[b as int]),
        decreases modes@.len() - i,
    {
        let c = modes[i];
        let usable = if c.width < MIN_FRAMEBUFFER_WIDTH || c.height < MIN_FRAMEBUFFER_HEIGHT || c.format.is_none() {
            false
        } else {
            match c.height.checked_mul(c.stride) {
                None => false,
                Some(pixels) => pixels <= MAX_FRAMEBUFFER_BYTES / 4,
            }
        };
        assert(usable == mode_usable(c));
        let area = mode_area_of(c);
        let better = match best {
            None => true,
            Some(_) => area < best_area,
        };
        if usable && better {
            best = Some(i);
            best_area = area;
        }
        i += 1;
    }
    best
}

} // verus!
