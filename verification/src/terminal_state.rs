//! The bounded terminal emulator: session output goes in, dirty cells
//! come out in render messages, and keys become bytes for the session.

use vstd::prelude::*;
use crate::render_abi::{Cell, MessageKind, RenderMessage, MAX_COLUMNS, MAX_RENDER_CELLS};
use crate::terminal::{Parser, ParserState, MAX_PARAMS};
use crate::terminal_model::{
    TermState, term_wf, blank_cell, all_dirty, cell_index, styled, store_top_line, scroll_up,
    line_feed, put, erase_span, erase_line, erase_display, min_of, DEFAULT_COLUMNS, DEFAULT_ROWS,
    SCREEN_CELLS, SCROLLBACK_CELLS, TERMINAL_SCROLLBACK_LINES, DEFAULT_FOREGROUND,
    DEFAULT_BACKGROUND, ansi_color, ansi_bright_color, saturating_decimal, reset_style, sgr_one,
    sgr_from, apply_sgr, dispatch_csi, feed_csi, with_utf8, ground_plain, feed_ground,
    reset_terminal, feed_byte, show_live_view, feed_bytes, feed_from, initial_terminal,
    CELL_ATTR_BOLD, CELL_ATTR_DIM, CELL_ATTR_UNDERLINE, REPLACEMENT_SCALAR, scroll_view,
    visible_cell, dirty_rank, dirty_count, rendered_dirty, render_position, render_message_for, rendered_through,
    lemma_rendered_rank, lemma_rank_monotone, named_key_bytes, key_bytes, input_out,
};
use crate::terminal::{MOD_CTRL, MOD_ALT, modified_character, control_byte};
use crate::input_abi::{InputMessage, KeyCode, KeyState};

verus! {

pub fn blank() -> (r: Cell)
    ensures
        r == blank_cell(),
{
    Cell {
        codepoint: 0x20,
        foreground: DEFAULT_FOREGROUND,
        background: DEFAULT_BACKGROUND,
        attributes: 0,
        width: 1,
        reserved: 0,
    }
}

/// Copy the top screen row into the scrollback from cell `base` on.
fn copy_row(scrollback: &mut Vec<Cell>, screen: &Vec<Cell>, base: usize)
    requires
        old(scrollback)@.len() == SCROLLBACK_CELLS,
        screen@.len() == SCREEN_CELLS,
        base + DEFAULT_COLUMNS <= SCROLLBACK_CELLS,
    ensures
        final(scrollback)@ == Seq::new(
            SCROLLBACK_CELLS as nat,
            |i: int|
                if base <= i < base + DEFAULT_COLUMNS {
                    screen@[i - base]
                } else {
                    old(scrollback)@[i]
                },
        ),
{
    let ghost expected = Seq::new(
        SCROLLBACK_CELLS as nat,
        |i: int|
            if base <= i < base + DEFAULT_COLUMNS {
                screen@[i - base]
            } else {
                old(scrollback)@[i]
            },
    );
    let mut column: usize = 0;
    while column < DEFAULT_COLUMNS
        invariant
            column <= DEFAULT_COLUMNS,
            base + DEFAULT_COLUMNS <= SCROLLBACK_CELLS,
            screen@.len() == SCREEN_CELLS,
            scrollback@.len() == SCROLLBACK_CELLS,
            forall|i: int|
                0 <= i < SCROLLBACK_CELLS ==> #[trigger] scrollback@[i] == if base <= i < base
                    + column {
                    screen@[i - base]
                } else {
                    old(scrollback)@[i]
                },
        decreases DEFAULT_COLUMNS - column,
    {
        let cell = screen[column];
        scrollback.set(base + column, cell);
        column += 1;
    }
    assert(scrollback@ =~= expected);
}

/// Move every screen row up one, blank the bottom row, and mark all
/// cells dirty.
fn shift_up(screen: &mut Vec<Cell>, dirty: &mut Vec<bool>)
    requires
        old(screen)@.len() == SCREEN_CELLS,
        old(dirty)@.len() == SCREEN_CELLS,
    ensures
        final(screen)@ == Seq::new(
            SCREEN_CELLS as nat,
            |i: int|
                if i < SCREEN_CELLS - DEFAULT_COLUMNS {
                    old(screen)@[i + DEFAULT_COLUMNS]
                } else {
                    blank_cell()
                },
        ),
        final(dirty)@ == all_dirty(),
{
    let ghost expected = Seq::new(
        SCREEN_CELLS as nat,
        |i: int|
            if i < SCREEN_CELLS - DEFAULT_COLUMNS {
                old(screen)@[i + DEFAULT_COLUMNS]
            } else {
                blank_cell()
            },
    );
    let last = SCREEN_CELLS - DEFAULT_COLUMNS;
    let mut index: usize = 0;
    while index < SCREEN_CELLS
        invariant
            index <= SCREEN_CELLS,
            last == SCREEN_CELLS - DEFAULT_COLUMNS,
            screen@.len() == SCREEN_CELLS,
            dirty@.len() == SCREEN_CELLS,
            expected == Seq::new(
                SCREEN_CELLS as nat,
                |i: int|
                    if i < SCREEN_CELLS - DEFAULT_COLUMNS {
                        old(screen)@[i + DEFAULT_COLUMNS]
                    } else {
                        blank_cell()
                    },
            ),
            forall|i: int|
                0 <= i < SCREEN_CELLS ==> #[trigger] screen@[i] == if i < index {
                    expected[i]
                } else {
                    old(screen)@[i]
                },
            forall|i: int| 0 <= i < index ==> #[trigger] dirty@[i],
        decreases SCREEN_CELLS - index,
    {
        let cell = if index < last {
            screen[index + DEFAULT_COLUMNS]
        } else {
            blank()
        };
        screen.set(index, cell);
        dirty.set(index, true);
        index += 1;
    }
    assert(screen@ =~= expected);
    assert(dirty@ =~= all_dirty());
}

/// Blank the cells from `low` up to `high` and mark them dirty.
fn blank_cells(screen: &mut Vec<Cell>, dirty: &mut Vec<bool>, low: usize, high: usize)
    requires
        old(screen)@.len() == SCREEN_CELLS,
        old(dirty)@.len() == SCREEN_CELLS,
        high <= SCREEN_CELLS,
    ensures
        final(screen)@ == Seq::new(
            SCREEN_CELLS as nat,
            |i: int|
                if low <= i < high {
                    blank_cell()
                } else {
                    old(screen)@[i]
                },
        ),
        final(dirty)@ == Seq::new(
            SCREEN_CELLS as nat,
            |i: int|
                if low <= i < high {
                    true
                } else {
                    old(dirty)@[i]
                },
        ),
{
    let mut index = low;
    while index < high
        invariant
            low <= index,
            low <= high ==> index <= high,
            low > high ==> index == low,
            high <= SCREEN_CELLS,
            screen@.len() == SCREEN_CELLS,
            dirty@.len() == SCREEN_CELLS,
            forall|i: int|
                0 <= i < SCREEN_CELLS ==> #[trigger] screen@[i] == if low <= i < index {
                    blank_cell()
                } else {
                    old(screen)@[i]
                },
            forall|i: int|
                0 <= i < SCREEN_CELLS ==> #[trigger] dirty@[i] == if low <= i < index {
                    true
                } else {
                    old(dirty)@[i]
                },
        decreases high - index,
    {
        screen.set(index, blank());
        dirty.set(index, true);
        index += 1;
    }
    assert(screen@ =~= Seq::new(
        SCREEN_CELLS as nat,
        |i: int|
            if low <= i < high {
                blank_cell()
            } else {
                old(screen)@[i]
            },
    ));
    assert(dirty@ =~= Seq::new(
        SCREEN_CELLS as nat,
        |i: int|
            if low <= i < high {
                true
            } else {
                old(dirty)@[i]
            },
    ));
}

/// A fixed-size terminal of `DEFAULT_COLUMNS` by `DEFAULT_ROWS` cells
/// with a ring of scrolled-off lines.
pub struct TerminalState {
    cursor_column: usize,
    cursor_row: usize,
    screen: Vec<Cell>,
    dirty: Vec<bool>,
    parser: Parser,
    foreground: u32,
    background: u32,
    attributes: u16,
    utf8_codepoint: u32,
    utf8_remaining: u8,
    utf8_min: u32,
    scrollback: Vec<Cell>,
    scrollback_start: usize,
    scrollback_len: usize,
    view_offset: usize,
}

pub type Terminal = TerminalState;

impl TerminalState {
    pub closed spec fn view(&self) -> TermState {
        TermState {
            column: self.cursor_column as int,
            row: self.cursor_row as int,
            screen: self.screen@,
            dirty: self.dirty@,
            parser_state: self.parser.state,
            params: self.parser.params@,
            param_count: self.parser.param_count as int,
            current: self.parser.current,
            has_current: self.parser.has_current,
            foreground: self.foreground,
            background: self.background,
            attributes: self.attributes,
            utf8_codepoint: self.utf8_codepoint,
            utf8_remaining: self.utf8_remaining,
            utf8_min: self.utf8_min,
            scrollback: self.scrollback@,
            scrollback_start: self.scrollback_start as int,
            scrollback_len: self.scrollback_len as int,
            view_offset: self.view_offset as int,
        }
    }

    pub open spec fn wf(&self) -> bool {
        term_wf(self@)
    }

    /// The cursor's column and row.
    pub fn cursor(&self) -> (r: (usize, usize))
        ensures
            r.0 == self@.column,
            r.1 == self@.row,
    {
        (self.cursor_column, self.cursor_row)
    }

    /// The cell of the live screen at `index`, row by row.
    pub fn screen_cell(&self, index: usize) -> (r: Option<Cell>)
        requires
            self.wf(),
        ensures
            r == (if index < SCREEN_CELLS {
                Some(self@.screen[index as int])
            } else {
                None
            }),
    {
        if index < self.screen.len() {
            Some(self.screen[index])
        } else {
            None
        }
    }

    /// How many scrollback lines the view is moved back.
    pub fn view_offset(&self) -> (r: usize)
        ensures
            r == self@.view_offset,
    {
        self.view_offset
    }

    /// The top screen row into the scrollback ring.
    fn store_top_line(&mut self)
        requires
            old(self).wf(),
        ensures
            final(self).wf(),
            final(self)@ == store_top_line(old(self)@),
    {
        let full = self.scrollback_len >= TERMINAL_SCROLLBACK_LINES;
        let slot = if full {
            self.scrollback_start
        } else {
            (self.scrollback_start + self.scrollback_len) % TERMINAL_SCROLLBACK_LINES
        };
        let base = slot * DEFAULT_COLUMNS;
        copy_row(&mut self.scrollback, &self.screen, base);
        if full {
            self.scrollback_start = (self.scrollback_start + 1) % TERMINAL_SCROLLBACK_LINES;
        } else {
            self.scrollback_len = self.scrollback_len + 1;
        }
        assert(self.scrollback@ =~= store_top_line(old(self)@).scrollback);
    }

    /// Scroll the screen up a row.
    fn scroll_up(&mut self)
        requires
            old(self).wf(),
        ensures
            final(self).wf(),
            final(self)@ == scroll_up(old(self)@),
    {
        self.store_top_line();
        shift_up(&mut self.screen, &mut self.dirty);
    }

    fn line_feed(&mut self)
        requires
            old(self).wf(),
        ensures
            final(self).wf(),
            final(self)@ == line_feed(old(self)@),
    {
        if self.cursor_row + 1 >= DEFAULT_ROWS {
            self.scroll_up();
        } else {
            self.cursor_row += 1;
        }
    }

    /// Write `codepoint` at the cursor in the current colours.
    fn put(&mut self, codepoint: u32)
        requires
            old(self).wf(),
        ensures
            final(self).wf(),
            final(self)@ == put(old(self)@, codepoint),
    {
        if self.cursor_column >= DEFAULT_COLUMNS {
            self.line_feed();
            self.cursor_column = 0;
        }
        let index = self.cursor_row * DEFAULT_COLUMNS + self.cursor_column;
        let cell = Cell {
            codepoint,
            foreground: self.foreground,
            background: self.background,
            attributes: self.attributes,
            width: 1,
            reserved: 0,
        };
        self.screen.set(index, cell);
        self.dirty.set(index, true);
        self.cursor_column += 1;
    }

    /// Blank the cells from `low` up to `high`.
    fn erase_span(&mut self, low: usize, high: usize)
        requires
            old(self).wf(),
            high <= SCREEN_CELLS,
        ensures
            final(self).wf(),
            final(self)@ == erase_span(old(self)@, low as int, high as int),
    {
        blank_cells(&mut self.screen, &mut self.dirty, low, high);
    }

    fn erase_line(&mut self, mode: u16)
        requires
            old(self).wf(),
        ensures
            final(self).wf(),
            final(self)@ == erase_line(old(self)@, mode),
    {
        let row_start = self.cursor_row * DEFAULT_COLUMNS;
        if mode == 0 {
            self.erase_span(row_start + self.cursor_column, row_start + DEFAULT_COLUMNS);
        } else if mode == 1 {
            let end = if self.cursor_column + 1 < DEFAULT_COLUMNS {
                self.cursor_column + 1
            } else {
                DEFAULT_COLUMNS
            };
            self.erase_span(row_start, row_start + end);
        } else if mode == 2 {
            self.erase_span(row_start, row_start + DEFAULT_COLUMNS);
        }
    }

    fn erase_display(&mut self, mode: u16)
        requires
            old(self).wf(),
        ensures
            final(self).wf(),
            final(self)@ == erase_display(old(self)@, mode),
    {
        let row_start = self.cursor_row * DEFAULT_COLUMNS;
        if mode == 0 {
            self.erase_span(row_start + self.cursor_column, row_start + DEFAULT_COLUMNS);
            self.erase_span(row_start + DEFAULT_COLUMNS, SCREEN_CELLS);
        } else if mode == 1 {
            self.erase_span(0, row_start);
            let end = if self.cursor_column + 1 < DEFAULT_COLUMNS {
                self.cursor_column + 1
            } else {
                DEFAULT_COLUMNS
            };
            self.erase_span(row_start, row_start + end);
        } else if mode == 2 || mode == 3 {
            self.erase_span(0, SCREEN_CELLS);
        }
    }
}


fn ansi_color_value(index: u16) -> (r: u32)
    ensures
        r == ansi_color(index as int),
{
    if index == 0 {
        0x000b_1020
    } else if index == 1 {
        0x00ff_6b6b
    } else if index == 2 {
        0x007e_d787
    } else if index == 3 {
        0x00ff_d866
    } else if index == 4 {
        0x0058_a6ff
    } else if index == 5 {
        0x00d2_a8ff
    } else if index == 6 {
        0x0056_d4dd
    } else {
        DEFAULT_FOREGROUND
    }
}

fn ansi_bright_color_value(index: u16) -> (r: u32)
    ensures
        r == ansi_bright_color(index as int),
{
    if index == 0 {
        0x0030_3845
    } else if index == 1 {
        0x00ff_7b72
    } else if index == 2 {
        0x00a5_d6a7
    } else if index == 3 {
        0x00f2_cc60
    } else if index == 4 {
        0x0079_c0ff
    } else if index == 5 {
        0x00d2_a8ff
    } else if index == 6 {
        0x00a5_d6ff
    } else {
        0x00ff_ffff
    }
}

fn saturating_decimal_value(value: u16, digit: u8) -> (r: u16)
    requires
        0x30 <= digit <= 0x39,
    ensures
        r == saturating_decimal(value, digit),
{
    let product: u32 = value as u32 * 10;
    let product: u32 = if product > 0xffff {
        0xffff
    } else {
        product
    };
    let sum: u32 = product + (digit - 0x30) as u32;
    if sum > 0xffff {
        0xffff
    } else {
        sum as u16
    }
}

impl TerminalState {
    fn reset_style(&mut self)
        ensures
            final(self)@ == reset_style(old(self)@),
    {
        self.foreground = DEFAULT_FOREGROUND;
        self.background = DEFAULT_BACKGROUND;
        self.attributes = 0;
    }

    fn sgr_one(&mut self, p: u16)
        ensures
            final(self)@ == sgr_one(old(self)@, p),
    {
        if p == 0 {
            self.reset_style();
        } else if p == 1 {
            self.attributes = self.attributes | CELL_ATTR_BOLD;
        } else if p == 2 {
            self.attributes = self.attributes | CELL_ATTR_DIM;
        } else if p == 4 {
            self.attributes = self.attributes | CELL_ATTR_UNDERLINE;
        } else if p == 22 {
            self.attributes = self.attributes & !(CELL_ATTR_BOLD | CELL_ATTR_DIM);
        } else if p == 24 {
            self.attributes = self.attributes & !CELL_ATTR_UNDERLINE;
        } else if 30 <= p && p <= 37 {
            self.foreground = ansi_color_value(p - 30);
        } else if p == 39 {
            self.foreground = DEFAULT_FOREGROUND;
        } else if 40 <= p && p <= 47 {
            self.background = ansi_color_value(p - 40);
        } else if p == 49 {
            self.background = DEFAULT_BACKGROUND;
        } else if 90 <= p && p <= 97 {
            self.foreground = ansi_bright_color_value(p - 90);
        } else if 100 <= p && p <= 107 {
            self.background = ansi_bright_color_value(p - 100);
        }
    }

    fn apply_sgr(&mut self)
        requires
            old(self).wf(),
        ensures
            final(self).wf(),
            final(self)@ == apply_sgr(old(self)@),
    {
        if self.parser.param_count == 0 {
            self.reset_style();
            return;
        }
        let count = self.parser.param_count;
        let ghost params = self@.params;
        let mut index: usize = 0;
        while index < count
            invariant
                self.wf(),
                index <= count,
                count == self@.param_count,
                params == self@.params,
                apply_sgr(old(self)@) == sgr_from(self@, params, count as int, index as int),
            decreases count - index,
        {
            let p = self.parser.params[index];
            self.sgr_one(p);
            index += 1;
        }
    }

    fn dispatch_csi(&mut self, final_byte: u8)
        requires
            old(self).wf(),
        ensures
            final(self).wf(),
            final(self)@ == dispatch_csi(old(self)@, final_byte),
    {
        reveal(dispatch_csi);
        if final_byte == 0x48 || final_byte == 0x66 {
            let row_param = self.parser.param(0, 1);
            let column_param = self.parser.param(1, 1);
            let row: usize = if row_param == 0 {
                0
            } else {
                (row_param - 1) as usize
            };
            let column: usize = if column_param == 0 {
                0
            } else {
                (column_param - 1) as usize
            };
            self.cursor_row = if row < DEFAULT_ROWS - 1 {
                row
            } else {
                DEFAULT_ROWS - 1
            };
            self.cursor_column = if column < DEFAULT_COLUMNS - 1 {
                column
            } else {
                DEFAULT_COLUMNS - 1
            };
        } else if final_byte == 0x4a {
            let mode = self.parser.param(0, 0);
            self.erase_display(mode);
        } else if final_byte == 0x4b {
            let mode = self.parser.param(0, 0);
            self.erase_line(mode);
        } else if final_byte == 0x6d {
            self.apply_sgr();
        }
    }

    fn feed_csi(&mut self, byte: u8)
        requires
            old(self).wf(),
        ensures
            final(self).wf(),
            final(self)@ == feed_csi(old(self)@, byte),
    {
        reveal(feed_csi);
        if 0x30 <= byte && byte <= 0x39 {
            self.parser.current = saturating_decimal_value(self.parser.current, byte);
            self.parser.has_current = true;
        } else if byte == 0x3b {
            self.parser.push_param();
        } else if 0x40 <= byte && byte <= 0x7e {
            if self.parser.has_current || self.parser.param_count > 0 {
                self.parser.push_param();
            }
            self.dispatch_csi(byte);
            self.parser.state = ParserState::Ground;
        } else {
            self.parser.state = ParserState::Ground;
        }
    }

    fn set_utf8(&mut self, codepoint: u32, remaining: u8, min: u32)
        ensures
            final(self)@ == with_utf8(old(self)@, codepoint, remaining, min),
    {
        self.utf8_codepoint = codepoint;
        self.utf8_remaining = remaining;
        self.utf8_min = min;
    }

    fn ground_plain(&mut self, byte: u8)
        requires
            old(self).wf(),
        ensures
            final(self).wf(),
            final(self)@ == ground_plain(old(self)@, byte),
    {
        reveal(ground_plain);
        if byte == 0x1b {
            self.parser.state = ParserState::Escape;
        } else if byte == 0x08 || byte == 0x7f {
            if self.cursor_column > 0 {
                self.cursor_column -= 1;
            }
        } else if byte == 0x09 {
            let next = (self.cursor_column / 8 + 1) * 8;
            self.cursor_column = if next < DEFAULT_COLUMNS - 1 {
                next
            } else {
                DEFAULT_COLUMNS - 1
            };
        } else if 0x0a <= byte && byte <= 0x0c {
            self.line_feed();
        } else if byte == 0x0d {
            self.cursor_column = 0;
        } else if 0x20 <= byte && byte <= 0x7e {
            self.put(byte as u32);
        } else if 0xc2 <= byte && byte <= 0xdf {
            self.set_utf8((byte & 0x1f) as u32, 1, 0x80);
        } else if 0xe0 <= byte && byte <= 0xef {
            self.set_utf8((byte & 0x0f) as u32, 2, 0x800);
        } else if 0xf0 <= byte && byte <= 0xf4 {
            self.set_utf8((byte & 0x07) as u32, 3, 0x10000);
        } else if byte >= 0x80 {
            self.put(REPLACEMENT_SCALAR);
        }
    }

    fn feed_ground(&mut self, byte: u8)
        requires
            old(self).wf(),
        ensures
            final(self).wf(),
            final(self)@ == feed_ground(old(self)@, byte),
    {
        reveal(feed_ground);
        if self.utf8_remaining != 0 {
            if 0x80 <= byte && byte < 0xc0 {
                let codepoint = (self.utf8_codepoint << 6u32) | ((byte & 0x3f) as u32);
                let remaining = self.utf8_remaining - 1;
                if remaining == 0 {
                    let min = self.utf8_min;
                    self.set_utf8(0, 0, 0);
                    let scalar = if codepoint >= min && codepoint <= 0x10ffff && !(0xd800
                        <= codepoint && codepoint <= 0xdfff) {
                        codepoint
                    } else {
                        REPLACEMENT_SCALAR
                    };
                    self.put(scalar);
                } else {
                    self.utf8_codepoint = codepoint;
                    self.utf8_remaining = remaining;
                }
                return;
            }
            self.set_utf8(0, 0, 0);
            self.put(REPLACEMENT_SCALAR);
            self.ground_plain(byte);
            return;
        }
        self.ground_plain(byte);
    }

    /// `ESC c`: back to the first state.
    pub fn reset(&mut self)
        requires
            old(self).wf(),
        ensures
            final(self).wf(),
            final(self)@ == reset_terminal(old(self)@),
    {
        self.cursor_column = 0;
        self.cursor_row = 0;
        self.parser = Parser::new();
        self.reset_style();
        self.set_utf8(0, 0, 0);
        self.scrollback_start = 0;
        self.scrollback_len = 0;
        self.view_offset = 0;
        blank_cells(&mut self.screen, &mut self.dirty, 0, SCREEN_CELLS);
        assert(self.parser.params@ =~= Seq::new(MAX_PARAMS as nat, |i: int| 0u16));
        assert(self.screen@ =~= Seq::new(SCREEN_CELLS as nat, |i: int| blank_cell()));
        assert(self.dirty@ =~= all_dirty());
    }

    fn feed_byte(&mut self, byte: u8)
        requires
            old(self).wf(),
        ensures
            final(self).wf(),
            final(self)@ == feed_byte(old(self)@, byte),
    {
        reveal(feed_byte);
        match self.parser.state {
            ParserState::Ground => self.feed_ground(byte),
            ParserState::Escape => {
                if byte == 0x5b {
                    self.parser.reset_csi();
                    self.parser.state = ParserState::Csi;
                } else if byte == 0x63 {
                    self.reset();
                } else {
                    self.parser.state = ParserState::Ground;
                }
            },
            ParserState::Csi => self.feed_csi(byte),
        }
    }

    fn show_live_view(&mut self)
        requires
            old(self).wf(),
        ensures
            final(self).wf(),
            final(self)@ == show_live_view(old(self)@),
    {
        if self.view_offset != 0 {
            self.view_offset = 0;
            mark_all(&mut self.dirty);
        }
    }

    /// Output from the session: the live screen comes back into view and
    /// each byte is interpreted in turn.
    pub fn feed(&mut self, bytes: &[u8])
        requires
            old(self).wf(),
        ensures
            final(self).wf(),
            final(self)@ == feed_bytes(old(self)@, bytes@),
    {
        self.show_live_view();
        let mut index: usize = 0;
        while index < bytes.len()
            invariant
                self.wf(),
                index <= bytes@.len(),
                feed_bytes(old(self)@, bytes@) == feed_from(self@, bytes@, index as int),
            decreases bytes@.len() - index,
        {
            self.feed_byte(bytes[index]);
            index += 1;
        }
    }

    pub fn new() -> (r: Self)
        ensures
            r.wf(),
            initial_terminal(r@),
    {
        let mut screen: Vec<Cell> = Vec::new();
        let mut dirty: Vec<bool> = Vec::new();
        let mut index: usize = 0;
        while index < SCREEN_CELLS
            invariant
                index <= SCREEN_CELLS,
                screen@.len() == index,
                dirty@.len() == index,
                forall|i: int| 0 <= i < index ==> #[trigger] screen@[i] == blank_cell(),
                forall|i: int| 0 <= i < index ==> #[trigger] dirty@[i],
            decreases SCREEN_CELLS - index,
        {
            screen.push(blank());
            dirty.push(true);
            index += 1;
        }
        let mut scrollback: Vec<Cell> = Vec::new();
        let mut index: usize = 0;
        while index < SCROLLBACK_CELLS
            invariant
                index <= SCROLLBACK_CELLS,
                scrollback@.len() == index,
                forall|i: int| 0 <= i < index ==> #[trigger] scrollback@[i] == blank_cell(),
            decreases SCROLLBACK_CELLS - index,
        {
            scrollback.push(blank());
            index += 1;
        }
        let r = TerminalState {
            cursor_column: 0,
            cursor_row: 0,
            screen,
            dirty,
            parser: Parser::new(),
            foreground: DEFAULT_FOREGROUND,
            background: DEFAULT_BACKGROUND,
            attributes: 0,
            utf8_codepoint: 0,
            utf8_remaining: 0,
            utf8_min: 0,
            scrollback,
            scrollback_start: 0,
            scrollback_len: 0,
            view_offset: 0,
        };
        assert(r.screen@ =~= Seq::new(SCREEN_CELLS as nat, |i: int| blank_cell()));
        assert(r.dirty@ =~= all_dirty());
        assert(r.scrollback@ =~= Seq::new(SCROLLBACK_CELLS as nat, |i: int| blank_cell()));
        assert(r.parser.params@ =~= Seq::new(MAX_PARAMS as nat, |i: int| 0u16));
        r
    }
}

/// Mark every cell dirty.
fn mark_all(dirty: &mut Vec<bool>)
    requires
        old(dirty)@.len() == SCREEN_CELLS,
    ensures
        final(dirty)@ == all_dirty(),
{
    let mut index: usize = 0;
    while index < SCREEN_CELLS
        invariant
            index <= SCREEN_CELLS,
            dirty@.len() == SCREEN_CELLS,
            forall|i: int| 0 <= i < index ==> #[trigger] dirty@[i],
        decreases SCREEN_CELLS - index,
    {
        dirty.set(index, true);
        index += 1;
    }
    assert(dirty@ =~= all_dirty());
}


fn bytes_of(bytes: &[u8]) -> (r: Vec<u8>)
    ensures
        r@ == bytes@,
{
    let r = crate::aml::slice_range(bytes, 0, bytes.len());
    assert(r@ =~= bytes@);
    r
}

fn named_key_value(code: KeyCode, modifiers: u16) -> (r: Option<Vec<u8>>)
    ensures
        match named_key_bytes(code, modifiers) {
            Some(bytes) => r is Some && r.unwrap()@ == bytes,
            None => r is None,
        },
{
    let ctrl = modifiers & MOD_CTRL != 0;
    match code {
        KeyCode::Escape => Some(bytes_of(&[0x1b])),
        KeyCode::Enter => Some(bytes_of(&[0x0d])),
        KeyCode::Backspace => Some(bytes_of(&[0x7f])),
        KeyCode::Tab => Some(bytes_of(&[0x09])),
        KeyCode::Up => Some(bytes_of(&[0x1b, 0x5b, 0x41])),
        KeyCode::Down => Some(bytes_of(&[0x1b, 0x5b, 0x42])),
        KeyCode::Left => if ctrl {
            Some(bytes_of(&[0x1b, 0x5b, 0x31, 0x3b, 0x35, 0x44]))
        } else {
            Some(bytes_of(&[0x1b, 0x5b, 0x44]))
        },
        KeyCode::Right => if ctrl {
            Some(bytes_of(&[0x1b, 0x5b, 0x31, 0x3b, 0x35, 0x43]))
        } else {
            Some(bytes_of(&[0x1b, 0x5b, 0x43]))
        },
        KeyCode::Home => Some(bytes_of(&[0x1b, 0x5b, 0x48])),
        KeyCode::End => Some(bytes_of(&[0x1b, 0x5b, 0x46])),
        KeyCode::Delete => Some(bytes_of(&[0x1b, 0x5b, 0x33, 0x7e])),
        _ => None,
    }
}

fn key_value(code: KeyCode, modifiers: u16) -> (r: Option<Vec<u8>>)
    ensures
        match key_bytes(code, modifiers) {
            Some(bytes) => r is Some && r.unwrap()@ == bytes,
            None => r is None,
        },
{
    if let Some(byte) = code.character_byte() {
        let c = modified_character(byte, modifiers);
        if modifiers & MOD_CTRL != 0 {
            return match control_byte(c) {
                Some(control) => Some(bytes_of(&[control])),
                None => None,
            };
        }
        if modifiers & MOD_ALT != 0 {
            return Some(bytes_of(&[0x1b, c]));
        }
    }
    named_key_value(code, modifiers)
}

impl TerminalState {
    /// Move the view into the scrollback by `lines` (up when positive).
    fn scroll_view(&mut self, lines: isize)
        requires
            old(self).wf(),
        ensures
            final(self).wf(),
            final(self)@ == scroll_view(old(self)@, lines as int),
    {
        let old_offset = self.view_offset;
        let offset = if lines > 0 {
            let step = lines as usize;
            if step >= self.scrollback_len - old_offset {
                self.scrollback_len
            } else {
                old_offset + step
            }
        } else {
            let step: u128 = (0 - (lines as i128)) as u128;
            if step >= old_offset as u128 {
                0
            } else {
                old_offset - step as usize
            }
        };
        if offset != old_offset {
            self.view_offset = offset;
            mark_all(&mut self.dirty);
        }
    }

    /// The cell shown at `row`, `column`.
    fn visible_cell(&self, row: usize, column: usize) -> (r: Cell)
        requires
            self.wf(),
            row < DEFAULT_ROWS,
            column < DEFAULT_COLUMNS,
        ensures
            r == visible_cell(self@, row as int, column as int),
    {
        if self.view_offset == 0 {
            return self.screen[row * DEFAULT_COLUMNS + column];
        }
        let line = self.scrollback_len - self.view_offset + row;
        if line < self.scrollback_len {
            let slot = (self.scrollback_start + line) % TERMINAL_SCROLLBACK_LINES;
            self.scrollback[slot * DEFAULT_COLUMNS + column]
        } else {
            self.screen[(line - self.scrollback_len) * DEFAULT_COLUMNS + column]
        }
    }

    /// Up to `MAX_RENDER_CELLS` of the dirty cells, first in screen order,
    /// which are then clean; `None` when nothing is dirty.
    pub fn next_render(&mut self) -> (r: Option<RenderMessage>)
        requires
            old(self).wf(),
        ensures
            final(self).wf(),
            dirty_count(old(self)@.dirty) == 0 ==> r is None && final(self)@ == old(self)@,
            dirty_count(old(self)@.dirty) > 0 ==> {
                &&& r is Some
                &&& render_message_for(r.unwrap(), old(self)@)
                &&& final(self)@ == (TermState { dirty: rendered_dirty(old(self)@.dirty), ..old(self)@ })
            },
    {
        let ghost s = self@;
        let mut message = RenderMessage::empty(MessageKind::RenderCells);
        message.columns = DEFAULT_COLUMNS as u16;
        message.rows = DEFAULT_ROWS as u16;
        message.cursor_column = self.cursor_column as u16;
        message.cursor_row = self.cursor_row as u16;
        let mut count: usize = 0;
        let mut index: usize = 0;
        while index < SCREEN_CELLS
            invariant
                term_wf(s),
                index <= SCREEN_CELLS,
                self@ == (TermState { dirty: self@.dirty, ..s }),
                self.dirty@.len() == SCREEN_CELLS,
                forall|k: int|
                    0 <= k < index ==> #[trigger] self.dirty@[k] == (s.dirty[k] && dirty_rank(s.dirty, k)
                        >= MAX_RENDER_CELLS),
                forall|k: int| index <= k < SCREEN_CELLS ==> #[trigger] self.dirty@[k] == s.dirty[k],
                count == min_of(dirty_rank(s.dirty, index as int), MAX_RENDER_CELLS as int),
                message.kind == MessageKind::RenderCells,
                message.columns == DEFAULT_COLUMNS,
                message.rows == DEFAULT_ROWS,
                message.cursor_column == s.column,
                message.cursor_row == s.row,
                message.count == 0,
                rendered_through(message, s, index as int),
                forall|j: int|
                    count <= j < MAX_RENDER_CELLS ==> message.positions@[j] == 0 && message.cells@[j]
                        == Cell::empty_spec(),
            decreases SCREEN_CELLS - index,
        {
            proof {
                lemma_rendered_rank(s.dirty, index as int);
            }
            if self.dirty[index] && count < MAX_RENDER_CELLS {
                let row = index / DEFAULT_COLUMNS;
                let column = index % DEFAULT_COLUMNS;
                let cell = self.visible_cell(row, column);
                proof {
                    assert forall|k: int|
                        0 <= k < index && s.dirty[k] implies dirty_rank(s.dirty, k) < count by {
                        lemma_rendered_rank(s.dirty, k);
                        lemma_rank_monotone(s.dirty, k + 1, index as int);
                    }
                    assert(row * MAX_COLUMNS + column < 0x10000);
                    assert(render_position(index as int) == row * MAX_COLUMNS + column);
                }
                let ghost before = message;
                message.positions.set(count, (row * MAX_COLUMNS + column) as u16);
                message.cells.set(count, cell);
                self.dirty.set(index, false);
                proof {
                    assert(dirty_rank(s.dirty, index as int) == count);
                    assert forall|k: int|
                        0 <= k < index + 1 && s.dirty[k] && dirty_rank(s.dirty, k)
                            < MAX_RENDER_CELLS implies {
                        &&& message.positions@[dirty_rank(s.dirty, k)] == render_position(k)
                        &&& message.cells@[dirty_rank(s.dirty, k)] == visible_cell(
                            s,
                            k / DEFAULT_COLUMNS as int,
                            k % DEFAULT_COLUMNS as int,
                        )
                    } by {
                        lemma_rendered_rank(s.dirty, k);
                        if k < index {
                            assert(rendered_through(before, s, index as int));
                            assert(before.positions@[dirty_rank(s.dirty, k)] == render_position(k));
                            assert(before.cells@[dirty_rank(s.dirty, k)] == visible_cell(
                                s,
                                k / DEFAULT_COLUMNS as int,
                                k % DEFAULT_COLUMNS as int,
                            ));
                            assert(dirty_rank(s.dirty, k) < count);
                            assert(message.positions@[dirty_rank(s.dirty, k)] == before.positions@[dirty_rank(
                                s.dirty,
                                k,
                            )]);
                            assert(message.cells@[dirty_rank(s.dirty, k)] == before.cells@[dirty_rank(
                                s.dirty,
                                k,
                            )]);
                        } else {
                            assert(k == index);
                            assert(message.positions@[count as int] == (row * MAX_COLUMNS
                                + column) as u16);
                            assert(message.cells@[count as int] == cell);
                        }
                    }
                    assert(rendered_through(message, s, index + 1));
                }
                count += 1;
            } else {
                proof {
                    assert forall|k: int|
                        0 <= k < index + 1 && s.dirty[k] && dirty_rank(s.dirty, k)
                            < MAX_RENDER_CELLS implies {
                        &&& message.positions@[dirty_rank(s.dirty, k)] == render_position(k)
                        &&& message.cells@[dirty_rank(s.dirty, k)] == visible_cell(
                            s,
                            k / DEFAULT_COLUMNS as int,
                            k % DEFAULT_COLUMNS as int,
                        )
                    } by {
                        if k == index {
                            assert(self.dirty@[index as int] == s.dirty[index as int]);
                        }
                    }
                    assert(rendered_through(message, s, index + 1));
                }
            }
            index += 1;
        }
        proof {
            lemma_rendered_rank(s.dirty, SCREEN_CELLS as int);
        }
        assert(self.dirty@ =~= rendered_dirty(s.dirty));
        if count == 0 {
            assert forall|k: int| 0 <= k < SCREEN_CELLS implies !s.dirty[k] by {
                lemma_rendered_rank(s.dirty, k);
                lemma_rank_monotone(s.dirty, k + 1, SCREEN_CELLS as int);
            }
            assert(self.dirty@ =~= s.dirty);
            return None;
        }
        message.count = count as u16;
        Some(message)
    }

    /// A key or text event: paging moves the view; other keys and text
    /// give the bytes to send to the session.
    pub fn input(&mut self, event: &InputMessage) -> (r: Option<Vec<u8>>)
        requires
            old(self).wf(),
        ensures
            final(self).wf(),
            ({
                let (t, bytes) = input_out(
                    old(self)@,
                    event.kind,
                    event.state,
                    event.code,
                    event.modifiers,
                    event.text@,
                );
                &&& final(self)@ == t
                &&& match bytes {
                    Some(b) => r is Some && r.unwrap()@ == b,
                    None => r is None,
                }
            }),
    {
        let pressed = event.kind == MessageKind::Key && (event.state == KeyState::Pressed
            || event.state == KeyState::Repeat);
        if pressed && event.code == KeyCode::PageUp {
            self.scroll_view((DEFAULT_ROWS - 1) as isize);
            return None;
        }
        if pressed && event.code == KeyCode::PageDown {
            self.scroll_view(-((DEFAULT_ROWS - 1) as isize));
            return None;
        }
        if event.kind == MessageKind::Text || event.kind == MessageKind::Paste {
            return Some(bytes_of(event.text.as_slice()));
        }
        if event.kind != MessageKind::Key || event.state == KeyState::Released {
            return None;
        }
        key_value(event.code, event.modifiers)
    }
}

/// The terminal service around one terminal.
pub struct TerminalService {
    terminal: TerminalState,
}

impl TerminalService {
    pub closed spec fn view(&self) -> TermState {
        self.terminal@
    }

    pub closed spec fn wf(&self) -> bool {
        self.terminal.wf()
    }

    pub fn new() -> (r: Self)
        ensures
            r.wf(),
            initial_terminal(r@),
    {
        TerminalService { terminal: TerminalState::new() }
    }

    pub fn input(&mut self, event: &InputMessage) -> (r: Option<Vec<u8>>)
        requires
            old(self).wf(),
        ensures
            final(self).wf(),
            ({
                let (t, bytes) = input_out(
                    old(self)@,
                    event.kind,
                    event.state,
                    event.code,
                    event.modifiers,
                    event.text@,
                );
                &&& final(self)@ == t
                &&& match bytes {
                    Some(b) => r is Some && r.unwrap()@ == b,
                    None => r is None,
                }
            }),
    {
        self.terminal.input(event)
    }

    pub fn session_output_bytes(&mut self, bytes: &[u8])
        requires
            old(self).wf(),
        ensures
            final(self).wf(),
            final(self)@ == feed_bytes(old(self)@, bytes@),
    {
        self.terminal.feed(bytes);
    }

    pub fn next_render(&mut self) -> (r: Option<RenderMessage>)
        requires
            old(self).wf(),
        ensures
            final(self).wf(),
            dirty_count(old(self)@.dirty) == 0 ==> r is None && final(self)@ == old(self)@,
            dirty_count(old(self)@.dirty) > 0 ==> {
                &&& r is Some
                &&& render_message_for(r.unwrap(), old(self)@)
                &&& final(self)@ == (TermState { dirty: rendered_dirty(old(self)@.dirty), ..old(self)@ })
            },
    {
        self.terminal.next_render()
    }
}

} // verus!
