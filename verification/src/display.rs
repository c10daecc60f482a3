//! Display service state: terminal cells in, dirty tracking, and the
//! rasterizer that draws dirty cells into a 32-bit framebuffer.

use vstd::prelude::*;
use crate::render_abi::{Cell, MessageKind, RenderMessage, MAX_COLUMNS, MAX_RENDER_CELLS, MAX_ROWS};
use crate::boot_resources::PixelFormat;

verus! {

pub const CELL_SLOTS: usize = 8000;

#[derive(Clone, Copy, Debug, PartialEq, Eq, Structural)]
pub enum DisplayError {
    InvalidMessage,
    StaleGeneration,
    InvalidFramebuffer,
}

pub struct Display {
    generation: u16,
    columns: usize,
    rows: usize,
    cursor_column: usize,
    cursor_row: usize,
    cells: Vec<Cell>,
    dirty: Vec<bool>,
    applied: usize,
}

/// Whether the message's first `count` positions all fall on its page.
pub open spec fn positions_valid(message: RenderMessage) -> bool {
    forall|i: int|
        0 <= i < message.count ==> {
            &&& (#[trigger] message.positions@[i]) < message.rows * MAX_COLUMNS
            &&& message.positions@[i] % (MAX_COLUMNS as u16) < message.columns
        }
}

/// Why `apply` refuses a message for the display at `generation`, if it does.
pub open spec fn apply_error(current: u16, generation: u16, message: RenderMessage) -> Option<DisplayError> {
    if generation != current {
        Some(DisplayError::StaleGeneration)
    } else if !(message.kind == MessageKind::RenderCells || message.kind == MessageKind::FullRedraw) {
        Some(DisplayError::InvalidMessage)
    } else if message.columns == 0 || message.columns > MAX_COLUMNS || message.rows == 0
        || message.rows > MAX_ROWS || message.count > MAX_RENDER_CELLS || !positions_valid(message) {
        Some(DisplayError::InvalidMessage)
    } else {
        None
    }
}

/// The index of the last of the first `n` message cells placed at `p`.
pub open spec fn last_write(message: RenderMessage, p: int, n: int) -> Option<int>
    decreases n,
{
    if n <= 0 {
        None
    } else if message.positions@[n - 1] == p {
        Some(n - 1)
    } else {
        last_write(message, p, n - 1)
    }
}

pub open spec fn min_usize(a: int, b: int) -> int {
    if a <= b { a } else { b }
}

impl Display {
    pub closed spec fn spec_generation(&self) -> u16 { self.generation }
    pub closed spec fn spec_columns(&self) -> usize { self.columns }
    pub closed spec fn spec_rows(&self) -> usize { self.rows }
    pub closed spec fn spec_cursor(&self) -> (usize, usize) { (self.cursor_column, self.cursor_row) }
    pub closed spec fn spec_applied(&self) -> usize { self.applied }
    /// Cell slots, indexed by row times `MAX_COLUMNS` plus column.
    pub closed spec fn spec_cells(&self) -> Seq<Cell> { self.cells@ }
    /// Slots that changed since they were last drawn.
    pub closed spec fn spec_dirty(&self) -> Seq<bool> { self.dirty@ }

    pub open spec fn wf(&self) -> bool {
        &&& self.spec_cells().len() == CELL_SLOTS
        &&& self.spec_dirty().len() == CELL_SLOTS
        &&& self.spec_columns() <= MAX_COLUMNS
        &&& self.spec_rows() <= MAX_ROWS
        &&& self.spec_cursor().0 < MAX_COLUMNS
        &&& self.spec_cursor().1 < MAX_ROWS
    }

    pub open spec fn cursor_slot(&self) -> int {
        self.spec_cursor().1 * MAX_COLUMNS + self.spec_cursor().0
    }

    pub fn new(generation: u16) -> (r: Self)
        ensures
            r.wf(),
            r.spec_generation() == generation,
            r.spec_columns() == 0,
            r.spec_rows() == 0,
            r.spec_cursor() == (0usize, 0usize),
            r.spec_applied() == 0,
            forall|i: int| 0 <= i < CELL_SLOTS ==> r.spec_cells()[i] == Cell::empty_spec() && !r.spec_dirty()[i],
    {
        let mut cells: Vec<Cell> = Vec::new();
        let mut dirty: Vec<bool> = Vec::new();
        let mut i: usize = 0;
        while i < CELL_SLOTS
            invariant
                i <= CELL_SLOTS,
                cells@.len() == i,
                dirty@.len() == i,
                forall|j: int| 0 <= j < i ==> cells@[j] == Cell::empty_spec() && !dirty@[j],
            decreases CELL_SLOTS - i,
        {
            cells.push(Cell::empty());
            dirty.push(false);
            i += 1;
        }
        Display {
            generation,
            columns: 0,
            rows: 0,
            cursor_column: 0,
            cursor_row: 0,
            cells,
            dirty,
            applied: 0,
        }
    }

    pub fn generation(&self) -> (r: u16)
        ensures
            r == self.spec_generation(),
    {
        self.generation
    }

    pub fn size(&self) -> (r: (usize, usize))
        ensures
            r == (self.spec_columns(), self.spec_rows()),
    {
        (self.columns, self.rows)
    }

    pub fn cursor(&self) -> (r: (usize, usize))
        ensures
            r == self.spec_cursor(),
    {
        (self.cursor_column, self.cursor_row)
    }

    pub fn applied_cells(&self) -> (r: usize)
        ensures
            r == self.spec_applied(),
    {
        self.applied
    }

    /// Start a new page generation: every cell blank and dirty.
    pub fn replace_generation(&mut self, generation: u16)
        requires
            old(self).wf(),
        ensures
            final(self).wf(),
            final(self).spec_generation() == generation,
            final(self).spec_applied() == 0,
            final(self).spec_columns() == old(self).spec_columns(),
            final(self).spec_rows() == old(self).spec_rows(),
            final(self).spec_cursor() == old(self).spec_cursor(),
            forall|i: int| 0 <= i < CELL_SLOTS ==> final(self).spec_cells()[i] == Cell::empty_spec()
                && final(self).spec_dirty()[i],
    {
        self.generation = generation;
        let mut i: usize = 0;
        while i < CELL_SLOTS
            invariant
                i <= CELL_SLOTS,
                self.cells@.len() == CELL_SLOTS,
                self.dirty@.len() == CELL_SLOTS,
                self.generation == generation,
                self.columns == old(self).columns,
                self.rows == old(self).rows,
                self.cursor_column == old(self).cursor_column,
                self.cursor_row == old(self).cursor_row,
                forall|j: int| 0 <= j < i ==> self.cells@[j] == Cell::empty_spec() && self.dirty@[j],
            decreases CELL_SLOTS - i,
        {
            self.cells.set(i, Cell::empty());
            self.dirty.set(i, true);
            i += 1;
        }
        self.applied = 0;
    }

    fn check_positions(message: &RenderMessage) -> (r: bool)
        requires
            message.count <= MAX_RENDER_CELLS,
        ensures
            r == positions_valid(*message),
    {
        let rows = message.rows as usize;
        let columns = message.columns as usize;
        let count = message.count as usize;
        let mut i: usize = 0;
        while i < count
            invariant
                count == message.count,
                count <= MAX_RENDER_CELLS,
                rows == message.rows,
                columns == message.columns,
                i <= count,
                forall|j: int|
                    0 <= j < i ==> {
                        &&& (#[trigger] message.positions@[j]) < message.rows * MAX_COLUMNS
                        &&& message.positions@[j] % (MAX_COLUMNS as u16) < message.columns
                    },
            decreases count - i,
        {
            let position = message.positions[i] as usize;
            if position >= rows * MAX_COLUMNS || position % MAX_COLUMNS >= columns {
                return false;
            }
            i += 1;
        }
        true
    }

    /// Apply a render message for `generation`. A stale generation, a kind
    /// other than a cell update or full redraw, a page size outside the
    /// limits, or any position off the page is refused and changes
    /// nothing. Otherwise a full redraw first blanks the page, each
    /// message cell is written in order, and the written slots and the old
    /// and new cursor slots become dirty.
    pub fn apply(&mut self, generation: u16, message: &RenderMessage) -> (r: Result<(), DisplayError>)
        requires
            old(self).wf(),
            old(self).spec_applied() + MAX_RENDER_CELLS <= usize::MAX,
        ensures
            final(self).wf(),
            match apply_error(old(self).spec_generation(), generation, *message) {
                Some(e) => r == Err::<(), DisplayError>(e) && *final(self) == *old(self),
                None => {
                    &&& r is Ok
                    &&& final(self).spec_generation() == old(self).spec_generation()
                    &&& final(self).spec_columns() == message.columns
                    &&& final(self).spec_rows() == message.rows
                    &&& final(self).spec_cursor() == (
                        min_usize(message.cursor_column as int, message.columns - 1) as usize,
                        min_usize(message.cursor_row as int, message.rows - 1) as usize,
                    )
                    &&& final(self).spec_applied() == old(self).spec_applied() + message.count
                    &&& forall|p: int|
                        0 <= p < CELL_SLOTS ==> #[trigger] final(self).spec_cells()[p] == match last_write(
                            *message,
                            p,
                            message.count as int,
                        ) {
                            Some(i) => message.cells@[i],
                            None => if message.kind == MessageKind::FullRedraw {
                                Cell::empty_spec()
                            } else {
                                old(self).spec_cells()[p]
                            },
                        }
                    &&& forall|p: int|
                        0 <= p < CELL_SLOTS ==> #[trigger] final(self).spec_dirty()[p] == (
                        message.kind == MessageKind::FullRedraw || old(self).spec_dirty()[p]
                            || last_write(*message, p, message.count as int) is Some || p
                            == old(self).cursor_slot() || p == final(self).cursor_slot())
                },
            },
    {
        if generation != self.generation {
            return Err(DisplayError::StaleGeneration);
        }
        if !(message.kind == MessageKind::RenderCells || message.kind == MessageKind::FullRedraw) {
            return Err(DisplayError::InvalidMessage);
        }
        let columns = message.columns as usize;
        let rows = message.rows as usize;
        if columns == 0 || columns > MAX_COLUMNS || rows == 0 || rows > MAX_ROWS || message.count as usize
            > MAX_RENDER_CELLS {
            return Err(DisplayError::InvalidMessage);
        }
        if !Self::check_positions(message) {
            return Err(DisplayError::InvalidMessage);
        }
        let full = message.kind == MessageKind::FullRedraw;
        let ghost before = *self;
        if full {
            let mut i: usize = 0;
            while i < CELL_SLOTS
                invariant
                    i <= CELL_SLOTS,
                    self.cells@.len() == CELL_SLOTS,
                    self.dirty@.len() == CELL_SLOTS,
                    self.generation == before.generation,
                    self.columns == before.columns,
                    self.rows == before.rows,
                    self.cursor_column == before.cursor_column,
                    self.cursor_row == before.cursor_row,
                    self.applied == before.applied,
                    forall|j: int| 0 <= j < i ==> self.cells@[j] == Cell::empty_spec() && self.dirty@[j],
                    forall|j: int| i <= j < CELL_SLOTS ==> self.cells@[j] == before.cells@[j] && self.dirty@[j] == before.dirty@[j],
                decreases CELL_SLOTS - i,
            {
                self.cells.set(i, Cell::empty());
                self.dirty.set(i, true);
                i += 1;
            }
        }
        let ghost base = *self;
        let count = message.count as usize;
        let mut index: usize = 0;
        while index < count
            invariant
                count == message.count,
                count <= MAX_RENDER_CELLS,
                index <= count,
                positions_valid(*message),
                rows == message.rows,
                columns == message.columns,
                rows <= MAX_ROWS,
                self.cells@.len() == CELL_SLOTS,
                self.dirty@.len() == CELL_SLOTS,
                self.generation == base.generation,
                self.columns == base.columns,
                self.rows == base.rows,
                self.cursor_column == base.cursor_column,
                self.cursor_row == base.cursor_row,
                self.applied == base.applied,
                forall|p: int| 0 <= p < CELL_SLOTS ==> #[trigger] self.cells@[p] == match last_write(*message, p, index as int) {
                    Some(i) => message.cells@[i],
                    None => base.cells@[p],
                },
                forall|p: int| 0 <= p < CELL_SLOTS ==> #[trigger] self.dirty@[p] == (base.dirty@[p] || last_write(*message, p, index as int) is Some),
            decreases count - index,
        {
            let position = message.positions[index] as usize;
            proof {
                assert(message.positions@[index as int] < message.rows * MAX_COLUMNS);
            }
            self.cells.set(position, message.cells[index]);
            self.dirty.set(position, true);
            index += 1;
        }
        let old_cursor = self.cursor_row * MAX_COLUMNS + self.cursor_column;
        self.columns = columns;
        self.rows = rows;
        self.cursor_column = if (message.cursor_column as usize) < columns - 1 {
            message.cursor_column as usize
        } else {
            columns - 1
        };
        self.cursor_row = if (message.cursor_row as usize) < rows - 1 {
            message.cursor_row as usize
        } else {
            rows - 1
        };
        self.dirty.set(old_cursor, true);
        let new_cursor = self.cursor_row * MAX_COLUMNS + self.cursor_column;
        self.dirty.set(new_cursor, true);
        self.applied = self.applied + count;
        Ok(())
    }

    /// The cell at `column`, `row` of the current page.
    pub fn cell(&self, column: usize, row: usize) -> (r: Option<Cell>)
        requires
            self.wf(),
        ensures
            r == (if column < self.spec_columns() && row < self.spec_rows() {
                Some(self.spec_cells()[row * MAX_COLUMNS + column])
            } else {
                None
            }),
    {
        if column < self.columns && row < self.rows {
            Some(self.cells[row * MAX_COLUMNS + column])
        } else {
            None
        }
    }
}

// ----- glyphs -----

pub const GLYPH_WIDTH: usize = 8;
pub const GLYPH_HEIGHT: usize = 16;

/// The bitmap of one character: a row of eight pixels per byte, the
/// leftmost pixel in the high bit.
#[derive(Clone, Copy, Debug)]
pub struct Glyph {
    pub codepoint: u32,
    pub rows: [u8; GLYPH_HEIGHT],
}

/// The font the display draws with: its glyphs, and the one drawn for a
/// character it has none for.
pub struct GlyphTable {
    pub glyphs: Vec<Glyph>,
    pub replacement: [u8; GLYPH_HEIGHT],
}

/// The rows of the first glyph at or after `i` for `codepoint`, else the
/// replacement's.
pub open spec fn glyph_from(glyphs: Seq<Glyph>, replacement: [u8; GLYPH_HEIGHT], codepoint: u32, i: int) -> [u8;
    GLYPH_HEIGHT]
    decreases glyphs.len() - i,
{
    if i < 0 || i >= glyphs.len() {
        replacement
    } else if glyphs[i].codepoint == codepoint {
        glyphs[i].rows
    } else {
        glyph_from(glyphs, replacement, codepoint, i + 1)
    }
}

impl GlyphTable {
    pub open spec fn rows_for(&self, codepoint: u32) -> [u8; GLYPH_HEIGHT] {
        glyph_from(self.glyphs@, self.replacement, codepoint, 0)
    }

    /// The bitmap drawn for `codepoint`.
    pub fn lookup(&self, codepoint: u32) -> (r: [u8; GLYPH_HEIGHT])
        ensures
            r == self.rows_for(codepoint),
    {
        let mut i: usize = 0;
        while i < self.glyphs.len()
            invariant
                i <= self.glyphs@.len(),
                self.rows_for(codepoint) == glyph_from(self.glyphs@, self.replacement, codepoint, i as int),
            decreases self.glyphs@.len() - i,
        {
            if self.glyphs[i].codepoint == codepoint {
                return self.glyphs[i].rows;
            }
            i += 1;
        }
        self.replacement
    }
}

// ----- pixels -----

/// Whether pixel `column` of glyph row `row` is set.
pub open spec fn glyph_bit(rows: [u8; GLYPH_HEIGHT], row: int, column: int) -> bool {
    (rows[row] >> ((7 - column) as u8)) & 1u8 == 1u8
}

/// Byte `channel` of a pixel of colour `color` (0x00RRGGBB): red, green,
/// blue and a zero byte, or blue, green, red and a zero byte.
pub open spec fn pixel_byte(format: PixelFormat, color: u32, channel: int) -> u8 {
    let red = ((color >> 16u32) & 0xffu32) as u8;
    let green = ((color >> 8u32) & 0xffu32) as u8;
    let blue = (color & 0xffu32) as u8;
    if channel == 3 {
        0
    } else if channel == 1 {
        green
    } else if (channel == 0) == (format == PixelFormat::Rgb8) {
        red
    } else {
        blue
    }
}

/// Byte `channel` of pixel (`column`, `row`) of a cell drawn with glyph
/// `rows`: the foreground colour where the glyph is set, else the
/// background.
pub open spec fn cell_byte(cell: Cell, rows: [u8; GLYPH_HEIGHT], format: PixelFormat, row: int, column: int, channel: int) -> u8 {
    pixel_byte(format, if glyph_bit(rows, row, column) { cell.foreground } else { cell.background }, channel)
}

/// Where byte `channel` of pixel (`x0 / 4 + gc`, `y0 + gr`) lies, for a
/// block starting at line `y0` and byte `x0` of a framebuffer with lines
/// of `stride` bytes.
pub open spec fn block_offset(stride: int, y0: int, x0: int, gr: int, gc: int, channel: int) -> int {
    (y0 + gr) * stride + x0 + gc * 4 + channel
}

/// Byte `p` lies in the glyph block at line `y0`, byte `x0`.
pub open spec fn in_block(p: int, stride: int, y0: int, x0: int) -> bool {
    exists|gr: int, gc: int, ch: int|
        0 <= gr < GLYPH_HEIGHT && 0 <= gc < GLYPH_WIDTH && 0 <= ch < 4 && p == #[trigger] block_offset(
            stride,
            y0,
            x0,
            gr,
            gc,
            ch,
        )
}

/// The first line and byte of cell (`column`, `row`)'s block.
pub open spec fn cell_y(row: int) -> int {
    row * GLYPH_HEIGHT
}

pub open spec fn cell_x(column: int) -> int {
    column * GLYPH_WIDTH * 4
}

proof fn lemma_split_unique(y1: int, x1: int, y2: int, x2: int, stride: int)
    requires
        0 <= x1 < stride,
        0 <= x2 < stride,
        0 <= y1,
        0 <= y2,
        y1 * stride + x1 == y2 * stride + x2,
    ensures
        y1 == y2,
        x1 == x2,
{
    if y1 < y2 {
        assert(y1 * stride + stride <= y2 * stride) by (nonlinear_arith)
            requires
                y1 < y2,
                stride > 0,
        ;
    } else if y2 < y1 {
        assert(y2 * stride + stride <= y1 * stride) by (nonlinear_arith)
            requires
                y2 < y1,
                stride > 0,
        ;
    }
}

proof fn lemma_offset_below(y: int, x: int, stride: int, height: int)
    requires
        0 <= y < height,
        0 <= x < stride,
    ensures
        y * stride + x < stride * height,
{
    assert(y * stride + stride <= height * stride) by (nonlinear_arith)
        requires
            y < height,
            stride > 0,
    ;
    assert(height * stride == stride * height) by (nonlinear_arith);
}

/// Distinct pixels of one block, or of blocks of distinct cells, never
/// share a byte.
proof fn lemma_block_offsets_distinct(
    stride: int,
    r1: int,
    c1: int,
    gr1: int,
    gc1: int,
    ch1: int,
    r2: int,
    c2: int,
    gr2: int,
    gc2: int,
    ch2: int,
    columns: int,
)
    requires
        columns * 32 <= stride,
        0 <= r1,
        0 <= r2,
        0 <= c1 < columns,
        0 <= c2 < columns,
        0 <= gr1 < 16,
        0 <= gr2 < 16,
        0 <= gc1 < 8,
        0 <= gc2 < 8,
        0 <= ch1 < 4,
        0 <= ch2 < 4,
        block_offset(stride, cell_y(r1), cell_x(c1), gr1, gc1, ch1) == block_offset(
            stride,
            cell_y(r2),
            cell_x(c2),
            gr2,
            gc2,
            ch2,
        ),
    ensures
        r1 == r2 && c1 == c2 && gr1 == gr2 && gc1 == gc2 && ch1 == ch2,
{
    lemma_split_unique(r1 * 16 + gr1, c1 * 32 + gc1 * 4 + ch1, r2 * 16 + gr2, c2 * 32 + gc2 * 4 + ch2, stride);
}

/// Draw one glyph block: byte `ch` of pixel (`gc`, `gr`) of the block at
/// line `y0`, byte `x0` takes the colour the glyph gives it; no other
/// byte changes.
fn paint_block(
    framebuffer: &mut [u8],
    stride: usize,
    y0: usize,
    x0: usize,
    rows: [u8; GLYPH_HEIGHT],
    cell: Cell,
    format: PixelFormat,
)
    requires
        x0 + 32 <= stride,
        (y0 + 16) * stride <= old(framebuffer)@.len(),
    ensures
        final(framebuffer)@.len() == old(framebuffer)@.len(),
        forall|gr: int, gc: int, ch: int|
            0 <= gr < 16 && 0 <= gc < 8 && 0 <= ch < 4 ==> final(framebuffer)@[#[trigger] block_offset(
                stride as int,
                y0 as int,
                x0 as int,
                gr,
                gc,
                ch,
            )] == cell_byte(cell, rows, format, gr, gc, ch),
        forall|p: int|
            0 <= p < old(framebuffer)@.len() && !in_block(p, stride as int, y0 as int, x0 as int)
                ==> final(framebuffer)@[p] == old(framebuffer)@[p],
{
    let ghost before = framebuffer@;
    let mut gr: usize = 0;
    while gr < GLYPH_HEIGHT
        invariant
            x0 + 32 <= stride,
            (y0 + 16) * stride <= before.len(),
            framebuffer@.len() == before.len(),
            gr <= GLYPH_HEIGHT,
            forall|g: int, c: int, ch: int|
                0 <= g < gr && 0 <= c < 8 && 0 <= ch < 4 ==> framebuffer@[#[trigger] block_offset(
                    stride as int,
                    y0 as int,
                    x0 as int,
                    g,
                    c,
                    ch,
                )] == cell_byte(cell, rows, format, g, c, ch),
            forall|p: int|
                0 <= p < before.len() && !in_block(p, stride as int, y0 as int, x0 as int) ==> framebuffer@[p]
                    == before[p],
        decreases GLYPH_HEIGHT - gr,
    {
        let mut gc: usize = 0;
        while gc < GLYPH_WIDTH
            invariant
                x0 + 32 <= stride,
                (y0 + 16) * stride <= before.len(),
                framebuffer@.len() == before.len(),
                gr < GLYPH_HEIGHT,
                gc <= GLYPH_WIDTH,
                forall|g: int, c: int, ch: int|
                    0 <= g < 16 && 0 <= c < 8 && 0 <= ch < 4 && (g < gr || (g == gr && c < gc))
                        ==> framebuffer@[#[trigger] block_offset(stride as int, y0 as int, x0 as int, g, c, ch)]
                        == cell_byte(cell, rows, format, g, c, ch),
                forall|p: int|
                    0 <= p < before.len() && !in_block(p, stride as int, y0 as int, x0 as int) ==> framebuffer@[p]
                        == before[p],
            decreases GLYPH_WIDTH - gc,
        {
            let shift: u8 = (7 - gc) as u8;
            let set = (rows[gr] >> shift) & 1u8 == 1u8;
            let color = if set { cell.foreground } else { cell.background };
            let red = ((color >> 16u32) & 0xffu32) as u8;
            let green = ((color >> 8u32) & 0xffu32) as u8;
            let blue = (color & 0xffu32) as u8;
            let (first, third) = match format {
                PixelFormat::Rgb8 => (red, blue),
                PixelFormat::Bgr8 => (blue, red),
            };
            let length = framebuffer.len();
            proof {
                lemma_offset_below((y0 + gr) as int, (x0 + gc * 4 + 3) as int, stride as int, (y0 + 16) as int);
                assert((y0 + 16) * stride == stride * (y0 + 16)) by (nonlinear_arith);
                assert(y0 + 16 <= (y0 + 16) * stride) by (nonlinear_arith)
                    requires
                        stride >= 1,
                ;
                assert((y0 + gr) * stride <= (y0 + 16) * stride) by (nonlinear_arith)
                    requires
                        gr < 16,
                ;
                assert((y0 + gr) * stride + x0 + gc * 4 + 3 < length);
            }
            let pixel = (y0 + gr) * stride + x0 + gc * 4;
            let ghost step = framebuffer@;
            framebuffer[pixel] = first;
            framebuffer[pixel + 1] = green;
            framebuffer[pixel + 2] = third;
            framebuffer[pixel + 3] = 0;
            proof {
                assert forall|ch: int| 0 <= ch < 4 implies framebuffer@[#[trigger] block_offset(
                    stride as int,
                    y0 as int,
                    x0 as int,
                    gr as int,
                    gc as int,
                    ch,
                )] == cell_byte(cell, rows, format, gr as int, gc as int, ch) by {
                    assert(block_offset(stride as int, y0 as int, x0 as int, gr as int, gc as int, ch) == pixel + ch);
                }
                assert forall|g: int, c: int, ch: int|
                    0 <= g < 16 && 0 <= c < 8 && 0 <= ch < 4 && (g < gr || (g == gr && c < gc)) implies framebuffer@[
                    #[trigger] block_offset(stride as int, y0 as int, x0 as int, g, c, ch)] == cell_byte(
                    cell,
                    rows,
                    format,
                    g,
                    c,
                    ch,
                ) by {
                    let o = block_offset(stride as int, y0 as int, x0 as int, g, c, ch);
                    assert(step[o] == cell_byte(cell, rows, format, g, c, ch));
                    if pixel <= o < pixel + 4 {
                        let k = o - pixel;
                        lemma_split_unique(
                            y0 + g,
                            x0 + c * 4 + ch,
                            (y0 + gr) as int,
                            x0 + gc * 4 + k,
                            stride as int,
                        );
                        if c < gc {
                            assert(c * 4 + ch < gc * 4 + k);
                        }
                        assert(false);
                    } else {
                        lemma_offset_below(y0 + g, x0 + c * 4 + ch, stride as int, (y0 + 16) as int);
                        assert(0 <= (y0 + g) * stride) by (nonlinear_arith)
                            requires
                                0 <= g,
                        ;
                        assert(framebuffer@[o] == step[o]);
                    }
                }
                assert forall|p: int|
                    0 <= p < before.len() && !in_block(p, stride as int, y0 as int, x0 as int) implies framebuffer@[p]
                    == before[p] by {
                    if pixel <= p < pixel + 4 {
                        assert(p == block_offset(stride as int, y0 as int, x0 as int, gr as int, gc as int, p - pixel));
                    }
                }
            }
            gc += 1;
        }
        gr += 1;
    }
}

// ----- rendering -----

/// Dirty slots among the first `c` of page row `row`.
pub open spec fn row_dirty(dirty: Seq<bool>, row: int, c: int) -> int
    decreases c,
{
    if c <= 0 {
        0
    } else {
        row_dirty(dirty, row, c - 1) + if dirty[row * MAX_COLUMNS + c - 1] {
            1int
        } else {
            0int
        }
    }
}

/// Dirty slots among the first `r` page rows of `columns` cells.
pub open spec fn page_dirty(dirty: Seq<bool>, columns: int, r: int) -> int
    decreases r,
{
    if r <= 0 {
        0
    } else {
        page_dirty(dirty, columns, r - 1) + row_dirty(dirty, r - 1, columns)
    }
}

/// Slot `i` lies on a page of `columns` by `rows` cells.
pub open spec fn on_page(i: int, columns: int, rows: int) -> bool {
    i / (MAX_COLUMNS as int) < rows && i % (MAX_COLUMNS as int) < columns
}

/// Cell (`c`, `r`) comes before cell (`column`, `row`) in screen order.
pub open spec fn before_cell(r: int, c: int, row: int, column: int) -> bool {
    r < row || (r == row && c < column)
}

/// Byte `p` belongs to the block of a dirty cell of the page that comes
/// before cell (`column`, `row`).
pub open spec fn painted_before(
    p: int,
    stride: int,
    dirty: Seq<bool>,
    columns: int,
    rows: int,
    row: int,
    column: int,
) -> bool {
    exists|r: int, c: int|
        0 <= r < rows && 0 <= c < columns && before_cell(r, c, row, column) && dirty[r * MAX_COLUMNS + c]
            && #[trigger] in_block(p, stride, cell_y(r), cell_x(c))
}

/// Why `render` refuses a framebuffer, if it does: no page yet, or a
/// framebuffer too small for the page at eight by sixteen pixels a cell.
pub open spec fn render_refused(columns: int, rows: int, length: int, width: int, height: int, stride: int) -> bool {
    columns == 0 || rows == 0 || width < columns * GLYPH_WIDTH || height < rows * GLYPH_HEIGHT || stride < width * 4
        || length < stride * height
}

proof fn lemma_row_dirty_bound(dirty: Seq<bool>, row: int, c: int)
    requires
        0 <= c,
    ensures
        0 <= row_dirty(dirty, row, c) <= c,
    decreases c,
{
    if c > 0 {
        lemma_row_dirty_bound(dirty, row, c - 1);
    }
}

proof fn lemma_page_dirty_bound(dirty: Seq<bool>, columns: int, r: int)
    requires
        0 <= r,
        0 <= columns,
    ensures
        0 <= page_dirty(dirty, columns, r) <= r * columns,
    decreases r,
{
    if r > 0 {
        lemma_page_dirty_bound(dirty, columns, r - 1);
        lemma_row_dirty_bound(dirty, r - 1, columns);
        assert((r - 1) * columns + columns == r * columns) by (nonlinear_arith);
    }
}

proof fn lemma_slot_parts(row: int, column: int)
    requires
        0 <= row,
        0 <= column < MAX_COLUMNS,
    ensures
        (row * MAX_COLUMNS + column) / (MAX_COLUMNS as int) == row,
        (row * MAX_COLUMNS + column) % (MAX_COLUMNS as int) == column,
{
    vstd::arithmetic::div_mod::lemma_fundamental_div_mod_converse(
        row * MAX_COLUMNS + column,
        MAX_COLUMNS as int,
        row,
        column,
    );
}

impl Display {
    /// Draw the dirty cells of the page into a 32-bit framebuffer of
    /// `width` by `height` pixels and lines of `stride` bytes, eight by
    /// sixteen pixels a cell, with the glyph `font` gives each cell's
    /// character: the foreground colour where the glyph is set, the
    /// background elsewhere, in the byte order `format` names. The drawn
    /// cells become clean and their number is returned; nothing else in
    /// the framebuffer changes. A framebuffer too small for the page, or a
    /// display with no page yet, is refused and nothing changes.
    pub fn render(
        &mut self,
        framebuffer: &mut [u8],
        width: usize,
        height: usize,
        stride: usize,
        format: PixelFormat,
        font: &GlyphTable,
    ) -> (r: Result<usize, DisplayError>)
        requires
            old(self).wf(),
            width * 4 <= usize::MAX,
            stride * height <= usize::MAX,
        ensures
            final(self).wf(),
            final(framebuffer)@.len() == old(framebuffer)@.len(),
            final(self).spec_generation() == old(self).spec_generation(),
            final(self).spec_columns() == old(self).spec_columns(),
            final(self).spec_rows() == old(self).spec_rows(),
            final(self).spec_cursor() == old(self).spec_cursor(),
            final(self).spec_applied() == old(self).spec_applied(),
            final(self).spec_cells() == old(self).spec_cells(),
            ({
                let columns = old(self).spec_columns() as int;
                let rows = old(self).spec_rows() as int;
                let dirty = old(self).spec_dirty();
                let cells = old(self).spec_cells();
                if render_refused(columns, rows, old(framebuffer)@.len() as int, width as int, height as int, stride as int) {
                    &&& r == Err::<usize, DisplayError>(DisplayError::InvalidFramebuffer)
                    &&& final(self).spec_dirty() == dirty
                    &&& final(framebuffer)@ == old(framebuffer)@
                } else {
                    &&& r == Ok::<usize, DisplayError>(page_dirty(dirty, columns, rows) as usize)
                    &&& forall|i: int|
                        0 <= i < CELL_SLOTS ==> #[trigger] final(self).spec_dirty()[i] == (dirty[i] && !on_page(
                            i,
                            columns,
                            rows,
                        ))
                    &&& forall|row: int, column: int, gr: int, gc: int, ch: int|
                        0 <= row < rows && 0 <= column < columns && dirty[row * MAX_COLUMNS + column] && 0 <= gr
                            < GLYPH_HEIGHT && 0 <= gc < GLYPH_WIDTH && 0 <= ch < 4 ==> final(framebuffer)@[
                            #[trigger] block_offset(stride as int, cell_y(row), cell_x(column), gr, gc, ch)]
                            == cell_byte(
                            cells[row * MAX_COLUMNS + column],
                            font.rows_for(cells[row * MAX_COLUMNS + column].codepoint),
                            format,
                            gr,
                            gc,
                            ch,
                        )
                    &&& forall|p: int|
                        0 <= p < old(framebuffer)@.len() && !painted_before(
                            p,
                            stride as int,
                            dirty,
                            columns,
                            rows,
                            rows,
                            0,
                        ) ==> #[trigger] final(framebuffer)@[p] == old(framebuffer)@[p]
                }
            }),
    {
        let columns = self.columns;
        let rows = self.rows;
        let length = framebuffer.len();
        if columns == 0 || rows == 0 || width < columns * GLYPH_WIDTH || height < rows * GLYPH_HEIGHT
            || stride < width * 4 || length < stride * height {
            return Err(DisplayError::InvalidFramebuffer);
        }
        let ghost before = framebuffer@;
        let ghost dirty = self.dirty@;
        let ghost cells = self.cells@;
        let ghost start = *self;
        let mut rendered: usize = 0;
        let mut row: usize = 0;
        while row < rows
            invariant
                self.wf(),
                columns == self.columns,
                rows == self.rows,
                0 < columns <= MAX_COLUMNS,
                0 < rows <= MAX_ROWS,
                columns * GLYPH_WIDTH <= width,
                rows * GLYPH_HEIGHT <= height,
                width * 4 <= stride,
                stride * height <= length,
                length == before.len(),
                framebuffer@.len() == before.len(),
                row <= rows,
                self.cells@ == cells,
                self.generation == start.generation,
                self.cursor_column == start.cursor_column,
                self.cursor_row == start.cursor_row,
                self.applied == start.applied,
                dirty.len() == CELL_SLOTS,
                rendered == page_dirty(dirty, columns as int, row as int),
                forall|i: int|
                    0 <= i < CELL_SLOTS ==> #[trigger] self.dirty@[i] == (dirty[i] && !(on_page(
                        i,
                        columns as int,
                        rows as int,
                    ) && before_cell(
                        i / (MAX_COLUMNS as int),
                        i % (MAX_COLUMNS as int),
                        row as int,
                        0,
                    ))),
                forall|r: int, c: int, gr: int, gc: int, ch: int|
                    0 <= r < rows && 0 <= c < columns && before_cell(r, c, row as int, 0) && dirty[r
                        * MAX_COLUMNS + c] && 0 <= gr < GLYPH_HEIGHT && 0 <= gc < GLYPH_WIDTH && 0 <= ch < 4
                        ==> framebuffer@[#[trigger] block_offset(stride as int, cell_y(r), cell_x(c), gr, gc, ch)]
                        == cell_byte(cells[r * MAX_COLUMNS + c], font.rows_for(cells[r * MAX_COLUMNS + c].codepoint), format, gr, gc, ch),
                forall|p: int|
                    0 <= p < before.len() && !painted_before(
                        p,
                        stride as int,
                        dirty,
                        columns as int,
                        rows as int,
                        row as int,
                        0,
                    ) ==> #[trigger] framebuffer@[p] == before[p],
            decreases rows - row,
        {
            proof {
                lemma_page_dirty_bound(dirty, columns as int, row as int);
                assert(row * columns <= MAX_ROWS * MAX_COLUMNS) by (nonlinear_arith)
                    requires
                        row <= MAX_ROWS,
                        columns <= MAX_COLUMNS,
                ;
            }
            let mut column: usize = 0;
            while column < columns
                invariant
                    self.wf(),
                    columns == self.columns,
                    rows == self.rows,
                    0 < columns <= MAX_COLUMNS,
                    0 < rows <= MAX_ROWS,
                    columns * GLYPH_WIDTH <= width,
                    rows * GLYPH_HEIGHT <= height,
                    width * 4 <= stride,
                    stride * height <= length,
                    length == before.len(),
                    framebuffer@.len() == before.len(),
                    row < rows,
                    column <= columns,
                    self.cells@ == cells,
                    self.generation == start.generation,
                    self.cursor_column == start.cursor_column,
                    self.cursor_row == start.cursor_row,
                    self.applied == start.applied,
                    dirty.len() == CELL_SLOTS,
                    page_dirty(dirty, columns as int, row as int) <= row * columns,
                    row * columns <= MAX_ROWS * MAX_COLUMNS,
                    rendered == page_dirty(dirty, columns as int, row as int) + row_dirty(
                        dirty,
                        row as int,
                        column as int,
                    ),
                    forall|i: int|
                        0 <= i < CELL_SLOTS ==> #[trigger] self.dirty@[i] == (dirty[i] && !(on_page(
                            i,
                            columns as int,
                            rows as int,
                        ) && before_cell(
                            i / (MAX_COLUMNS as int),
                            i % (MAX_COLUMNS as int),
                            row as int,
                            column as int,
                        ))),
                    forall|r: int, c: int, gr: int, gc: int, ch: int|
                        0 <= r < rows && 0 <= c < columns && before_cell(r, c, row as int, column as int) && dirty[r
                            * MAX_COLUMNS + c] && 0 <= gr < GLYPH_HEIGHT && 0 <= gc < GLYPH_WIDTH && 0 <= ch < 4
                            ==> framebuffer@[#[trigger] block_offset(stride as int, cell_y(r), cell_x(c), gr, gc, ch)]
                            == cell_byte(cells[r * MAX_COLUMNS + c], font.rows_for(cells[r * MAX_COLUMNS + c].codepoint), format, gr, gc, ch),
                    forall|p: int|
                        0 <= p < before.len() && !painted_before(
                            p,
                            stride as int,
                            dirty,
                            columns as int,
                            rows as int,
                            row as int,
                            column as int,
                        ) ==> #[trigger] framebuffer@[p] == before[p],
                decreases columns - column,
            {
                let index = row * MAX_COLUMNS + column;
                proof {
                    lemma_slot_parts(row as int, column as int);
                    lemma_row_dirty_bound(dirty, row as int, column as int);
                }
                let ghost prior = framebuffer@;
                if self.dirty[index] {
                    assert(dirty[index as int]);
                    let cell = self.cells[index];
                    let glyph = font.lookup(cell.codepoint);
                    proof {
                        assert(column * 32 + 32 <= stride) by (nonlinear_arith)
                            requires
                                column < columns,
                                columns * 8 <= width,
                                width * 4 <= stride,
                        ;
                        assert((row * 16 + 16) * stride <= length) by (nonlinear_arith)
                            requires
                                row < rows,
                                rows * 16 <= height,
                                stride * height <= length,
                        ;
                    }
                    paint_block(framebuffer, stride, row * GLYPH_HEIGHT, column * GLYPH_WIDTH * 4, glyph, cell, format);
                    self.dirty.set(index, false);
                    rendered = rendered + 1;
                    proof {
                        let y = cell_y(row as int);
                        let x = cell_x(column as int);
                        assert forall|r: int, c: int, gr: int, gc: int, ch: int|
                            0 <= r < rows && 0 <= c < columns && before_cell(r, c, row as int, column + 1) && dirty[r
                                * MAX_COLUMNS + c] && 0 <= gr < GLYPH_HEIGHT && 0 <= gc < GLYPH_WIDTH && 0 <= ch < 4
                                implies framebuffer@[#[trigger] block_offset(stride as int, cell_y(r), cell_x(c), gr, gc, ch)]
                            == cell_byte(cells[r * MAX_COLUMNS + c], font.rows_for(cells[r * MAX_COLUMNS + c].codepoint), format, gr, gc, ch) by {
                            let o = block_offset(stride as int, cell_y(r), cell_x(c), gr, gc, ch);
                            if r == row && c == column {
                                assert(block_offset(stride as int, y, x, gr, gc, ch) == o);
                            } else {
                                assert(before_cell(r, c, row as int, column as int));
                                if in_block(o, stride as int, y, x) {
                                    let (g2, c2, h2) = choose|g2: int, c2: int, h2: int|
                                        0 <= g2 < GLYPH_HEIGHT && 0 <= c2 < GLYPH_WIDTH && 0 <= h2 < 4 && o
                                            == #[trigger] block_offset(stride as int, y, x, g2, c2, h2);
                                    lemma_block_offsets_distinct(
                                        stride as int,
                                        r,
                                        c,
                                        gr,
                                        gc,
                                        ch,
                                        row as int,
                                        column as int,
                                        g2,
                                        c2,
                                        h2,
                                        columns as int,
                                    );
                                }
                                lemma_offset_below(
                                    r * 16 + gr,
                                    c * 32 + gc * 4 + ch,
                                    stride as int,
                                    height as int,
                                );
                                assert(0 <= (r * 16 + gr) * stride) by (nonlinear_arith)
                                    requires
                                        0 <= r,
                                        0 <= gr,
                                ;
                                assert(framebuffer@[o] == prior[o]);
                            }
                        }
                        assert forall|p: int|
                            0 <= p < before.len() && !painted_before(
                                p,
                                stride as int,
                                dirty,
                                columns as int,
                                rows as int,
                                row as int,
                                column + 1,
                            ) implies #[trigger] framebuffer@[p] == before[p] by {
                            if in_block(p, stride as int, y, x) {
                                assert(before_cell(row as int, column as int, row as int, column + 1));
                                assert(painted_before(p, stride as int, dirty, columns as int, rows as int, row as int, column + 1));
                            }
                            if painted_before(p, stride as int, dirty, columns as int, rows as int, row as int, column as int) {
                                let (r, c) = choose|r: int, c: int|
                                    0 <= r < rows && 0 <= c < columns && before_cell(r, c, row as int, column as int)
                                        && dirty[r * MAX_COLUMNS + c] && #[trigger] in_block(p, stride as int, cell_y(r), cell_x(c));
                                assert(before_cell(r, c, row as int, column + 1));
                            }
                            assert(prior[p] == before[p]);
                        }
                    }
                } else {
                    proof {
                        assert forall|p: int|
                            0 <= p < before.len() && !painted_before(
                                p,
                                stride as int,
                                dirty,
                                columns as int,
                                rows as int,
                                row as int,
                                column + 1,
                            ) implies #[trigger] framebuffer@[p] == before[p] by {
                            if painted_before(p, stride as int, dirty, columns as int, rows as int, row as int, column as int) {
                                let (r, c) = choose|r: int, c: int|
                                    0 <= r < rows && 0 <= c < columns && before_cell(r, c, row as int, column as int)
                                        && dirty[r * MAX_COLUMNS + c] && #[trigger] in_block(p, stride as int, cell_y(r), cell_x(c));
                                assert(before_cell(r, c, row as int, column + 1));
                            }
                        }
                    }
                }
                column += 1;
            }
            proof {
                assert forall|p: int|
                    0 <= p < before.len() && !painted_before(
                        p,
                        stride as int,
                        dirty,
                        columns as int,
                        rows as int,
                        row + 1,
                        0,
                    ) implies #[trigger] framebuffer@[p] == before[p] by {
                    if painted_before(p, stride as int, dirty, columns as int, rows as int, row as int, columns as int) {
                        let (r, c) = choose|r: int, c: int|
                            0 <= r < rows && 0 <= c < columns && before_cell(r, c, row as int, columns as int)
                                && dirty[r * MAX_COLUMNS + c] && #[trigger] in_block(p, stride as int, cell_y(r), cell_x(c));
                        assert(before_cell(r, c, row + 1, 0));
                    }
                }
            }
            row += 1;
        }
        Ok(rendered)
    }
}

proof fn lemma_full_row(dirty: Seq<bool>, row: int, c: int)
    requires
        0 <= row < MAX_ROWS,
        0 <= c <= MAX_COLUMNS,
        dirty.len() == CELL_SLOTS,
        forall|i: int| 0 <= i < CELL_SLOTS ==> #[trigger] dirty[i],
    ensures
        row_dirty(dirty, row, c) == c,
    decreases c,
{
    if c > 0 {
        lemma_full_row(dirty, row, c - 1);
        assert(row * MAX_COLUMNS + c - 1 < CELL_SLOTS) by (nonlinear_arith)
            requires
                row < MAX_ROWS,
                c <= MAX_COLUMNS,
                0 < c,
        ;
        assert(dirty[row * MAX_COLUMNS + c - 1]);
    }
}

/// On a page where every slot is dirty, as `replace_generation` leaves it,
/// the next render draws every cell of the page: `columns * rows` of them.
pub proof fn lemma_full_page_renders_every_cell(dirty: Seq<bool>, columns: int, rows: int)
    requires
        0 <= columns <= MAX_COLUMNS,
        0 <= rows <= MAX_ROWS,
        dirty.len() == CELL_SLOTS,
        forall|i: int| 0 <= i < CELL_SLOTS ==> #[trigger] dirty[i],
    ensures
        page_dirty(dirty, columns, rows) == columns * rows,
    decreases rows,
{
    if rows > 0 {
        lemma_full_page_renders_every_cell(dirty, columns, rows - 1);
        lemma_full_row(dirty, rows - 1, columns);
        assert(columns * (rows - 1) + columns == columns * rows) by (nonlinear_arith);
    } else {
        assert(columns * rows == 0) by (nonlinear_arith)
            requires
                rows == 0,
        ;
    }
}

} // verus!
