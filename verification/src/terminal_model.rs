//! The mathematical model of the terminal emulator: the screen, the
//! scrollback ring, the escape-sequence parser, and what each byte does.

use vstd::prelude::*;
use crate::render_abi::Cell;
use crate::terminal::{
    ParserState, MAX_PARAMS, MOD_CTRL, MOD_ALT, modified_spec, control_byte_spec,
};
use crate::render_abi::MessageKind;
use crate::input_abi::{KeyCode, KeyState};

verus! {

pub const DEFAULT_COLUMNS: usize = 80;
pub const DEFAULT_ROWS: usize = 25;
pub const SCREEN_CELLS: usize = 2000;
pub const TERMINAL_SCROLLBACK_LINES: usize = 64;
pub const SCROLLBACK_CELLS: usize = 5120;
pub const DEFAULT_FOREGROUND: u32 = 0x00d7_e3f4;
pub const DEFAULT_BACKGROUND: u32 = 0x000b_1020;
pub const REPLACEMENT_SCALAR: u32 = 0xfffd;
pub const CELL_ATTR_BOLD: u16 = 1;
pub const CELL_ATTR_DIM: u16 = 2;
pub const CELL_ATTR_UNDERLINE: u16 = 4;

/// The theme's eight colours for SGR 30-37 and 40-47.
pub open spec fn ansi_color(index: int) -> u32 {
    if index == 0 {
        0x000b_1020
    } else if index == 1 {
        0x00ff_6b6b
    } else if index == 2 {
        0x007e_d787
    } else if index == 3 {
        0x00ff_d866
    } else if index == 4 {
        0x0058_a6ff
    } else if index == 5 {
        0x00d2_a8ff
    } else if index == 6 {
        0x0056_d4dd
    } else {
        DEFAULT_FOREGROUND
    }
}

/// The bright colours for SGR 90-97 and 100-107.
pub open spec fn ansi_bright_color(index: int) -> u32 {
    if index == 0 {
        0x0030_3845
    } else if index == 1 {
        0x00ff_7b72
    } else if index == 2 {
        0x00a5_d6a7
    } else if index == 3 {
        0x00f2_cc60
    } else if index == 4 {
        0x0079_c0ff
    } else if index == 5 {
        0x00d2_a8ff
    } else if index == 6 {
        0x00a5_d6ff
    } else {
        0x00ff_ffff
    }
}

/// A space in the default colours.
pub open spec fn blank_cell() -> Cell {
    Cell {
        codepoint: 0x20,
        foreground: DEFAULT_FOREGROUND,
        background: DEFAULT_BACKGROUND,
        attributes: 0,
        width: 1,
        reserved: 0,
    }
}

/// The state of a terminal.
pub struct TermState {
    pub column: int,
    pub row: int,
    pub screen: Seq<Cell>,
    pub dirty: Seq<bool>,
    pub parser_state: ParserState,
    pub params: Seq<u16>,
    pub param_count: int,
    pub current: u16,
    pub has_current: bool,
    pub foreground: u32,
    pub background: u32,
    pub attributes: u16,
    pub utf8_codepoint: u32,
    pub utf8_remaining: u8,
    pub utf8_min: u32,
    pub scrollback: Seq<Cell>,
    pub scrollback_start: int,
    pub scrollback_len: int,
    pub view_offset: int,
}

pub open spec fn term_wf(s: TermState) -> bool {
    &&& 0 <= s.column <= DEFAULT_COLUMNS
    &&& 0 <= s.row < DEFAULT_ROWS
    &&& s.screen.len() == SCREEN_CELLS
    &&& s.dirty.len() == SCREEN_CELLS
    &&& s.params.len() == MAX_PARAMS
    &&& 0 <= s.param_count <= MAX_PARAMS
    &&& s.utf8_remaining <= 3
    &&& s.scrollback.len() == SCROLLBACK_CELLS
    &&& 0 <= s.scrollback_start < TERMINAL_SCROLLBACK_LINES
    &&& 0 <= s.scrollback_len <= TERMINAL_SCROLLBACK_LINES
    &&& 0 <= s.view_offset <= s.scrollback_len
}

pub open spec fn all_dirty() -> Seq<bool> {
    Seq::new(SCREEN_CELLS as nat, |i: int| true)
}

/// The screen position of cell `index`: row times the column count plus
/// column.
pub open spec fn cell_index(column: int, row: int) -> int {
    row * DEFAULT_COLUMNS + column
}

// ----- writing cells -----

pub open spec fn styled(s: TermState, codepoint: u32) -> Cell {
    Cell {
        codepoint,
        foreground: s.foreground,
        background: s.background,
        attributes: s.attributes,
        width: 1,
        reserved: 0,
    }
}

/// The top screen row copied into the scrollback ring, dropping the
/// oldest line when the ring is full.
pub open spec fn store_top_line(s: TermState) -> TermState {
    let full = s.scrollback_len >= TERMINAL_SCROLLBACK_LINES;
    let slot = if full {
        s.scrollback_start
    } else {
        (s.scrollback_start + s.scrollback_len) % (TERMINAL_SCROLLBACK_LINES as int)
    };
    let base = slot * DEFAULT_COLUMNS;
    TermState {
        scrollback: Seq::new(
            SCROLLBACK_CELLS as nat,
            |i: int|
                if base <= i < base + DEFAULT_COLUMNS {
                    s.screen[i - base]
                } else {
                    s.scrollback[i]
                },
        ),
        scrollback_start: if full {
            (s.scrollback_start + 1) % (TERMINAL_SCROLLBACK_LINES as int)
        } else {
            s.scrollback_start
        },
        scrollback_len: if full {
            s.scrollback_len
        } else {
            s.scrollback_len + 1
        },
        ..s
    }
}

/// Scroll the screen up a row: the top row goes to the scrollback, a
/// blank row appears at the bottom, and every cell is to be redrawn.
pub open spec fn scroll_up(s: TermState) -> TermState {
    let t = store_top_line(s);
    TermState {
        screen: Seq::new(
            SCREEN_CELLS as nat,
            |i: int|
                if i < SCREEN_CELLS - DEFAULT_COLUMNS {
                    t.screen[i + DEFAULT_COLUMNS]
                } else {
                    blank_cell()
                },
        ),
        dirty: all_dirty(),
        ..t
    }
}

pub open spec fn line_feed(s: TermState) -> TermState {
    if s.row + 1 >= DEFAULT_ROWS {
        scroll_up(s)
    } else {
        TermState { row: s.row + 1, ..s }
    }
}

/// Write `codepoint` in the current colours at the cursor, wrapping to
/// the next line first when the cursor is past the last column.
pub open spec fn put(s: TermState, codepoint: u32) -> TermState {
    let t = if s.column >= DEFAULT_COLUMNS {
        TermState { column: 0, ..line_feed(s) }
    } else {
        s
    };
    let index = cell_index(t.column, t.row);
    TermState {
        screen: t.screen.update(index, styled(t, codepoint)),
        dirty: t.dirty.update(index, true),
        column: t.column + 1,
        ..t
    }
}

/// Blank the cells from index `low` up to `high`.
pub open spec fn erase_span(s: TermState, low: int, high: int) -> TermState {
    TermState {
        screen: Seq::new(
            SCREEN_CELLS as nat,
            |i: int|
                if low <= i < high {
                    blank_cell()
                } else {
                    s.screen[i]
                },
        ),
        dirty: Seq::new(
            SCREEN_CELLS as nat,
            |i: int|
                if low <= i < high {
                    true
                } else {
                    s.dirty[i]
                },
        ),
        ..s
    }
}

pub open spec fn min_of(a: int, b: int) -> int {
    if a <= b {
        a
    } else {
        b
    }
}

/// `ESC [ n K`: 0 from the cursor to the end of the line, 1 from the
/// start of the line through the cursor, 2 the whole line.
pub open spec fn erase_line(s: TermState, mode: u16) -> TermState {
    let row_start = cell_index(0, s.row);
    if mode == 0 {
        erase_span(s, row_start + s.column, row_start + DEFAULT_COLUMNS)
    } else if mode == 1 {
        erase_span(s, row_start, row_start + min_of(s.column + 1, DEFAULT_COLUMNS as int))
    } else if mode == 2 {
        erase_span(s, row_start, row_start + DEFAULT_COLUMNS)
    } else {
        s
    }
}

/// `ESC [ n J`: 0 from the cursor to the end of the screen, 1 from the
/// start of the screen through the cursor, 2 or 3 the whole screen.
pub open spec fn erase_display(s: TermState, mode: u16) -> TermState {
    let row_start = cell_index(0, s.row);
    if mode == 0 {
        erase_span(
            erase_span(s, row_start + s.column, row_start + DEFAULT_COLUMNS),
            row_start + DEFAULT_COLUMNS,
            SCREEN_CELLS as int,
        )
    } else if mode == 1 {
        erase_span(
            erase_span(s, 0, row_start),
            row_start,
            row_start + min_of(s.column + 1, DEFAULT_COLUMNS as int),
        )
    } else if mode == 2 || mode == 3 {
        erase_span(s, 0, SCREEN_CELLS as int)
    } else {
        s
    }
}

// ----- the parser -----

/// Parameter `index`, or `default` when it is zero.
pub open spec fn param(s: TermState, index: int, default: u16) -> u16 {
    if 0 <= index < MAX_PARAMS && s.params[index] != 0 {
        s.params[index]
    } else {
        default
    }
}

pub open spec fn push_param(s: TermState) -> TermState {
    let t = TermState { current: 0, has_current: false, ..s };
    if s.param_count < MAX_PARAMS {
        TermState {
            params: s.params.update(s.param_count, if s.has_current { s.current } else { 0 }),
            param_count: s.param_count + 1,
            ..t
        }
    } else {
        t
    }
}

pub open spec fn reset_style(s: TermState) -> TermState {
    TermState { foreground: DEFAULT_FOREGROUND, background: DEFAULT_BACKGROUND, attributes: 0, ..s }
}

/// One SGR parameter.
pub open spec fn sgr_one(s: TermState, p: u16) -> TermState {
    if p == 0 {
        reset_style(s)
    } else if p == 1 {
        TermState { attributes: s.attributes | CELL_ATTR_BOLD, ..s }
    } else if p == 2 {
        TermState { attributes: s.attributes | CELL_ATTR_DIM, ..s }
    } else if p == 4 {
        TermState { attributes: s.attributes | CELL_ATTR_UNDERLINE, ..s }
    } else if p == 22 {
        TermState { attributes: s.attributes & !(CELL_ATTR_BOLD | CELL_ATTR_DIM), ..s }
    } else if p == 24 {
        TermState { attributes: s.attributes & !CELL_ATTR_UNDERLINE, ..s }
    } else if 30 <= p <= 37 {
        TermState { foreground: ansi_color(p - 30), ..s }
    } else if p == 39 {
        TermState { foreground: DEFAULT_FOREGROUND, ..s }
    } else if 40 <= p <= 47 {
        TermState { background: ansi_color(p - 40), ..s }
    } else if p == 49 {
        TermState { background: DEFAULT_BACKGROUND, ..s }
    } else if 90 <= p <= 97 {
        TermState { foreground: ansi_bright_color(p - 90), ..s }
    } else if 100 <= p <= 107 {
        TermState { background: ansi_bright_color(p - 100), ..s }
    } else {
        s
    }
}

/// The SGR parameters from `i` on, applied in order.
pub open spec fn sgr_from(s: TermState, params: Seq<u16>, count: int, i: int) -> TermState
    decreases count - i,
{
    if i < 0 || i >= count {
        s
    } else {
        sgr_from(sgr_one(s, params[i]), params, count, i + 1)
    }
}

proof fn lemma_sgr_from_last(s: TermState, params: Seq<u16>, count: int, i: int)
    requires
        0 <= i < count,
    ensures
        sgr_from(s, params, count, i) == sgr_one(sgr_from(s, params, count - 1, i), params[count - 1]),
    decreases count - i,
{
    let next = sgr_one(s, params[i]);
    if i < count - 1 {
        lemma_sgr_from_last(next, params, count, i + 1);
        assert(sgr_from(s, params, count - 1, i) == sgr_from(next, params, count - 1, i + 1));
    } else {
        assert(sgr_from(next, params, count, i + 1) == next);
        assert(sgr_from(s, params, count - 1, i) == s);
    }
    assert(sgr_from(s, params, count, i) == sgr_from(next, params, count, i + 1));
}

/// Parameter 39 restores the default foreground, whatever colour was set
/// before, and touches neither the background nor the attributes; so an
/// SGR sequence that ends in 39 leaves the default foreground for the
/// text that follows.
pub proof fn lemma_sgr_39_restores_default_foreground(s: TermState, params: Seq<u16>, count: int)
    requires
        0 < count,
        params[count - 1] == 39,
    ensures
        sgr_one(s, 39).foreground == DEFAULT_FOREGROUND,
        sgr_one(s, 39).background == s.background,
        sgr_one(s, 39).attributes == s.attributes,
        sgr_from(s, params, count, 0).foreground == DEFAULT_FOREGROUND,
{
    lemma_sgr_from_last(s, params, count, 0);
}

/// `ESC [ ... m`: no parameters reset the style.
pub open spec fn apply_sgr(s: TermState) -> TermState {
    if s.param_count == 0 {
        reset_style(s)
    } else {
        sgr_from(s, s.params, s.param_count, 0)
    }
}

/// An `ESC [ ... m` sequence whose last parameter is 39 leaves the default
/// foreground.
pub proof fn lemma_sgr_sequence_ending_in_39(s: TermState)
    requires
        0 < s.param_count,
        s.params[s.param_count - 1] == 39,
    ensures
        apply_sgr(s).foreground == DEFAULT_FOREGROUND,
{
    lemma_sgr_39_restores_default_foreground(s, s.params, s.param_count as int);
}

pub open spec fn saturating_sub_one(value: u16) -> int {
    if value == 0 {
        0
    } else {
        value - 1
    }
}

/// The final byte of a control sequence.
#[verifier::opaque]
pub open spec fn dispatch_csi(s: TermState, final_byte: u8) -> TermState {
    if final_byte == 0x48 || final_byte == 0x66 {
        TermState {
            row: min_of(saturating_sub_one(param(s, 0, 1)), DEFAULT_ROWS - 1),
            column: min_of(saturating_sub_one(param(s, 1, 1)), DEFAULT_COLUMNS - 1),
            ..s
        }
    } else if final_byte == 0x4a {
        erase_display(s, param(s, 0, 0))
    } else if final_byte == 0x4b {
        erase_line(s, param(s, 0, 0))
    } else if final_byte == 0x6d {
        apply_sgr(s)
    } else {
        s
    }
}

/// `value * 10 + digit`, saturating at the top of `u16` after each step.
pub open spec fn saturating_decimal(value: u16, digit: u8) -> u16 {
    let product = if value * 10 > 0xffff {
        0xffff
    } else {
        value * 10
    };
    if product + (digit - 0x30) > 0xffff {
        0xffffu16
    } else {
        (product + (digit - 0x30)) as u16
    }
}

pub open spec fn with_parser_state(s: TermState, state: ParserState) -> TermState {
    TermState { parser_state: state, ..s }
}

/// A byte inside a control sequence: digits, `;` between parameters, and
/// a final byte that ends it.
#[verifier::opaque]
pub open spec fn feed_csi(s: TermState, byte: u8) -> TermState {
    if 0x30 <= byte <= 0x39 {
        TermState { current: saturating_decimal(s.current, byte), has_current: true, ..s }
    } else if byte == 0x3b {
        push_param(s)
    } else if 0x40 <= byte <= 0x7e {
        let t = if s.has_current || s.param_count > 0 {
            push_param(s)
        } else {
            s
        };
        with_parser_state(dispatch_csi(t, byte), ParserState::Ground)
    } else {
        with_parser_state(s, ParserState::Ground)
    }
}

/// `ESC c`: the whole terminal back to its first state; the scrollback
/// ring is emptied but its old cells stay where they were.
pub open spec fn reset_terminal(s: TermState) -> TermState {
    TermState {
        column: 0,
        row: 0,
        parser_state: ParserState::Ground,
        params: Seq::new(MAX_PARAMS as nat, |i: int| 0u16),
        param_count: 0,
        current: 0,
        has_current: false,
        foreground: DEFAULT_FOREGROUND,
        background: DEFAULT_BACKGROUND,
        attributes: 0,
        utf8_codepoint: 0,
        utf8_remaining: 0,
        utf8_min: 0,
        scrollback_start: 0,
        scrollback_len: 0,
        view_offset: 0,
        screen: Seq::new(SCREEN_CELLS as nat, |i: int| blank_cell()),
        dirty: all_dirty(),
        ..s
    }
}

pub open spec fn with_utf8(s: TermState, codepoint: u32, remaining: u8, min: u32) -> TermState {
    TermState { utf8_codepoint: codepoint, utf8_remaining: remaining, utf8_min: min, ..s }
}

/// A byte in the ground state with no UTF-8 sequence in progress.
#[verifier::opaque]
pub open spec fn ground_plain(s: TermState, byte: u8) -> TermState {
    if byte == 0x1b {
        with_parser_state(s, ParserState::Escape)
    } else if byte == 0x08 || byte == 0x7f {
        TermState { column: if s.column > 0 { s.column - 1 } else { 0 }, ..s }
    } else if byte == 0x09 {
        TermState { column: min_of((s.column / 8 + 1) * 8, DEFAULT_COLUMNS - 1), ..s }
    } else if 0x0a <= byte <= 0x0c {
        line_feed(s)
    } else if byte == 0x0d {
        TermState { column: 0, ..s }
    } else if 0x20 <= byte <= 0x7e {
        put(s, byte as u32)
    } else if 0xc2 <= byte <= 0xdf {
        with_utf8(s, (byte & 0x1f) as u32, 1, 0x80)
    } else if 0xe0 <= byte <= 0xef {
        with_utf8(s, (byte & 0x0f) as u32, 2, 0x800)
    } else if 0xf0 <= byte <= 0xf4 {
        with_utf8(s, (byte & 0x07) as u32, 3, 0x10000)
    } else if byte >= 0x80 {
        put(s, REPLACEMENT_SCALAR)
    } else {
        s
    }
}

/// The scalar a finished UTF-8 sequence stands for, or the replacement
/// character when it is overlong, a surrogate or out of range.
pub open spec fn decoded_scalar(scalar: u32, min: u32) -> u32 {
    if scalar >= min && scalar <= 0x10ffff && !(0xd800 <= scalar <= 0xdfff) {
        scalar
    } else {
        REPLACEMENT_SCALAR
    }
}

/// A byte in the ground state.
#[verifier::opaque]
pub open spec fn feed_ground(s: TermState, byte: u8) -> TermState {
    if s.utf8_remaining != 0 {
        if 0x80 <= byte < 0xc0 {
            let codepoint = (s.utf8_codepoint << 6u32) | ((byte & 0x3f) as u32);
            let remaining = (s.utf8_remaining - 1) as u8;
            if remaining == 0 {
                put(with_utf8(s, 0, 0, 0), decoded_scalar(codepoint, s.utf8_min))
            } else {
                TermState { utf8_codepoint: codepoint, utf8_remaining: remaining, ..s }
            }
        } else {
            ground_plain(put(with_utf8(s, 0, 0, 0), REPLACEMENT_SCALAR), byte)
        }
    } else {
        ground_plain(s, byte)
    }
}

/// One byte of output from the session.
#[verifier::opaque]
pub open spec fn feed_byte(s: TermState, byte: u8) -> TermState {
    match s.parser_state {
        ParserState::Ground => feed_ground(s, byte),
        ParserState::Escape => {
            if byte == 0x5b {
                with_parser_state(
                    TermState { param_count: 0, current: 0, has_current: false, ..s },
                    ParserState::Csi,
                )
            } else if byte == 0x63 {
                reset_terminal(s)
            } else {
                with_parser_state(s, ParserState::Ground)
            }
        },
        ParserState::Csi => feed_csi(s, byte),
    }
}

/// Back to the live screen from the scrollback view.
pub open spec fn show_live_view(s: TermState) -> TermState {
    if s.view_offset != 0 {
        TermState { view_offset: 0, dirty: all_dirty(), ..s }
    } else {
        s
    }
}

/// The bytes from position `i` on, fed in order.
pub open spec fn feed_from(s: TermState, bytes: Seq<u8>, i: int) -> TermState
    decreases bytes.len() - i,
{
    if i < 0 || i >= bytes.len() {
        s
    } else {
        feed_from(feed_byte(s, bytes[i]), bytes, i + 1)
    }
}

/// Output from the session: back to the live view, then each byte.
pub open spec fn feed_bytes(s: TermState, bytes: Seq<u8>) -> TermState {
    feed_from(show_live_view(s), bytes, 0)
}

// ----- viewing and rendering -----

/// Move the view `lines` into the scrollback (up when positive), within
/// the lines it holds; a moved view is redrawn whole.
pub open spec fn scroll_view(s: TermState, lines: int) -> TermState {
    let offset = if lines > 0 {
        min_of(s.view_offset + lines, s.scrollback_len)
    } else if s.view_offset + lines >= 0 {
        s.view_offset + lines
    } else {
        0
    };
    if offset != s.view_offset {
        TermState { view_offset: offset, dirty: all_dirty(), ..s }
    } else {
        s
    }
}

/// The cell shown at `row`, `column`: the screen, or with the view moved
/// back, the scrollback lines above it.
pub open spec fn visible_cell(s: TermState, row: int, column: int) -> Cell {
    if s.view_offset == 0 {
        s.screen[cell_index(column, row)]
    } else {
        let line = s.scrollback_len - s.view_offset + row;
        if line < s.scrollback_len {
            let slot = (s.scrollback_start + line) % (TERMINAL_SCROLLBACK_LINES as int);
            s.scrollback[slot * DEFAULT_COLUMNS + column]
        } else {
            s.screen[(line - s.scrollback_len) * DEFAULT_COLUMNS + column]
        }
    }
}

/// How many of the first `i` cells are to be redrawn.
pub open spec fn dirty_rank(dirty: Seq<bool>, i: int) -> int
    decreases i,
{
    if i <= 0 {
        0
    } else {
        dirty_rank(dirty, i - 1) + if dirty[i - 1] {
            1int
        } else {
            0int
        }
    }
}

pub open spec fn dirty_count(dirty: Seq<bool>) -> int {
    dirty_rank(dirty, dirty.len() as int)
}


/// A terminal as it starts: a blank screen to be drawn whole, default
/// colours, and an empty scrollback.
pub open spec fn initial_terminal(s: TermState) -> bool {
    &&& s.column == 0
    &&& s.row == 0
    &&& s.screen == Seq::new(SCREEN_CELLS as nat, |i: int| blank_cell())
    &&& s.dirty == all_dirty()
    &&& s.parser_state == ParserState::Ground
    &&& s.params == Seq::new(MAX_PARAMS as nat, |i: int| 0u16)
    &&& s.param_count == 0
    &&& s.current == 0
    &&& !s.has_current
    &&& s.foreground == DEFAULT_FOREGROUND
    &&& s.background == DEFAULT_BACKGROUND
    &&& s.attributes == 0
    &&& s.utf8_codepoint == 0
    &&& s.utf8_remaining == 0
    &&& s.utf8_min == 0
    &&& s.scrollback == Seq::new(SCROLLBACK_CELLS as nat, |i: int| blank_cell())
    &&& s.scrollback_start == 0
    &&& s.scrollback_len == 0
    &&& s.view_offset == 0
}


// ----- keys -----

/// The bytes a named key sends to the session; Ctrl moves the horizontal
/// arrows by words.
pub open spec fn named_key_bytes(code: KeyCode, modifiers: u16) -> Option<Seq<u8>> {
    let ctrl = modifiers & MOD_CTRL != 0;
    match code {
        KeyCode::Escape => Some(seq![0x1bu8]),
        KeyCode::Enter => Some(seq![0x0du8]),
        KeyCode::Backspace => Some(seq![0x7fu8]),
        KeyCode::Tab => Some(seq![0x09u8]),
        KeyCode::Up => Some(seq![0x1bu8, 0x5b, 0x41]),
        KeyCode::Down => Some(seq![0x1bu8, 0x5b, 0x42]),
        KeyCode::Left => if ctrl {
            Some(seq![0x1bu8, 0x5b, 0x31, 0x3b, 0x35, 0x44])
        } else {
            Some(seq![0x1bu8, 0x5b, 0x44])
        },
        KeyCode::Right => if ctrl {
            Some(seq![0x1bu8, 0x5b, 0x31, 0x3b, 0x35, 0x43])
        } else {
            Some(seq![0x1bu8, 0x5b, 0x43])
        },
        KeyCode::Home => Some(seq![0x1bu8, 0x5b, 0x48]),
        KeyCode::End => Some(seq![0x1bu8, 0x5b, 0x46]),
        KeyCode::Delete => Some(seq![0x1bu8, 0x5b, 0x33, 0x7e]),
        _ => None,
    }
}

/// The bytes a pressed key sends: a character key with Ctrl sends its
/// control code and with Alt an escape before it; other keys by name.
pub open spec fn key_bytes(code: KeyCode, modifiers: u16) -> Option<Seq<u8>> {
    match code {
        KeyCode::Character(byte) => {
            let c = modified_spec(byte, modifiers);
            if modifiers & MOD_CTRL != 0 {
                match control_byte_spec(c) {
                    Some(control) => Some(seq![control]),
                    None => None,
                }
            } else if modifiers & MOD_ALT != 0 {
                Some(seq![0x1bu8, c])
            } else {
                named_key_bytes(code, modifiers)
            }
        },
        _ => named_key_bytes(code, modifiers),
    }
}

/// An input event: Page Up and Page Down move the view and send nothing;
/// text goes to the session as it is; a pressed or repeated key sends its
/// bytes.
pub open spec fn input_out(
    s: TermState,
    kind: MessageKind,
    state: KeyState,
    code: KeyCode,
    modifiers: u16,
    text: Seq<u8>,
) -> (TermState, Option<Seq<u8>>) {
    let pressed = kind == MessageKind::Key && (state == KeyState::Pressed || state == KeyState::Repeat);
    if pressed && code == KeyCode::PageUp {
        (scroll_view(s, DEFAULT_ROWS - 1), None)
    } else if pressed && code == KeyCode::PageDown {
        (scroll_view(s, -(DEFAULT_ROWS - 1)), None)
    } else if kind == MessageKind::Text || kind == MessageKind::Paste {
        (s, Some(text))
    } else if kind != MessageKind::Key || state == KeyState::Released {
        (s, None)
    } else {
        (s, key_bytes(code, modifiers))
    }
}

/// The screen position a render message gives cell `index`.
pub open spec fn render_position(index: int) -> int {
    (index / DEFAULT_COLUMNS as int) * crate::render_abi::MAX_COLUMNS + index % DEFAULT_COLUMNS as int
}

/// The dirty flags after a render: the first `MAX_RENDER_CELLS` dirty
/// cells are clean.
pub open spec fn rendered_dirty(dirty: Seq<bool>) -> Seq<bool> {
    Seq::new(
        dirty.len(),
        |i: int| dirty[i] && dirty_rank(dirty, i) >= crate::render_abi::MAX_RENDER_CELLS,
    )
}

pub proof fn lemma_rendered_rank(dirty: Seq<bool>, i: int)
    requires
        0 <= i <= dirty.len(),
    ensures
        dirty_rank(rendered_dirty(dirty), i) == dirty_rank(dirty, i) - min_of(
            dirty_rank(dirty, i),
            crate::render_abi::MAX_RENDER_CELLS as int,
        ),
        0 <= dirty_rank(dirty, i) <= i,
    decreases i,
{
    if i > 0 {
        lemma_rendered_rank(dirty, i - 1);
    }
}

/// Each render takes up to `MAX_RENDER_CELLS` of the dirty cells, so
/// repeated renders drain them.
pub proof fn lemma_render_drains(dirty: Seq<bool>)
    ensures
        dirty_count(rendered_dirty(dirty)) == dirty_count(dirty) - min_of(
            dirty_count(dirty),
            crate::render_abi::MAX_RENDER_CELLS as int,
        ),
{
    lemma_rendered_rank(dirty, dirty.len() as int);
}


pub proof fn lemma_rank_monotone(dirty: Seq<bool>, i: int, j: int)
    requires
        0 <= i <= j <= dirty.len(),
    ensures
        dirty_rank(dirty, i) <= dirty_rank(dirty, j),
    decreases j - i,
{
    if i < j {
        lemma_rank_monotone(dirty, i, j - 1);
    }
}

/// `m` holds each dirty cell of `s` before index `end` that is among the
/// first `MAX_RENDER_CELLS` dirty cells, at its rank.
pub open spec fn rendered_through(m: crate::render_abi::RenderMessage, s: TermState, end: int) -> bool {
    forall|k: int|
        0 <= k < end && s.dirty[k] && dirty_rank(s.dirty, k) < crate::render_abi::MAX_RENDER_CELLS
            ==> {
            &&& m.positions@[dirty_rank(s.dirty, k)] == render_position(k)
            &&& m.cells@[dirty_rank(s.dirty, k)] == visible_cell(
                s,
                k / DEFAULT_COLUMNS as int,
                k % DEFAULT_COLUMNS as int,
            )
        }
}

/// `m` renders the first dirty cells of `s`, in screen order.
pub open spec fn render_message_for(m: crate::render_abi::RenderMessage, s: TermState) -> bool {
    let count = min_of(dirty_count(s.dirty), crate::render_abi::MAX_RENDER_CELLS as int);
    &&& m.kind == MessageKind::RenderCells
    &&& m.columns == DEFAULT_COLUMNS
    &&& m.rows == DEFAULT_ROWS
    &&& m.cursor_column == s.column
    &&& m.cursor_row == s.row
    &&& m.count == count
    &&& rendered_through(m, s, SCREEN_CELLS as int)
    &&& forall|j: int|
        count <= j < crate::render_abi::MAX_RENDER_CELLS ==> m.positions@[j] == 0 && m.cells@[j]
            == Cell::empty_spec()
}

proof fn lemma_rank_covers(dirty: Seq<bool>, n: int, j: int)
    requires
        0 <= n <= dirty.len(),
        0 <= j < dirty_rank(dirty, n),
    ensures
        exists|k: int| 0 <= k < n && dirty[k] && #[trigger] dirty_rank(dirty, k) == j,
    decreases n,
{
    if n > 0 {
        if j < dirty_rank(dirty, n - 1) {
            lemma_rank_covers(dirty, n - 1, j);
            let k = choose|k: int| 0 <= k < n - 1 && dirty[k] && #[trigger] dirty_rank(dirty, k) == j;
            assert(0 <= k < n && dirty[k] && dirty_rank(dirty, k) == j);
        } else {
            assert(dirty[n - 1] && dirty_rank(dirty, n - 1) == j);
        }
    }
}

/// A render message for a terminal holds, in its first `count` slots,
/// exactly the first dirty cells in screen order: slot `j` is the screen
/// position and content of the dirty cell with `j` dirty cells before it.
pub proof fn lemma_render_slots_in_screen_order(m: crate::render_abi::RenderMessage, s: TermState, j: int)
    requires
        s.dirty.len() == SCREEN_CELLS,
        render_message_for(m, s),
        0 <= j < m.count,
    ensures
        exists|k: int|
            0 <= k < SCREEN_CELLS && s.dirty[k] && #[trigger] dirty_rank(s.dirty, k) == j && m.positions@[j]
                == render_position(k) && m.cells@[j] == visible_cell(
                s,
                k / DEFAULT_COLUMNS as int,
                k % DEFAULT_COLUMNS as int,
            ),
{
    lemma_rank_covers(s.dirty, SCREEN_CELLS as int, j);
    let k = choose|k: int| 0 <= k < SCREEN_CELLS && s.dirty[k] && #[trigger] dirty_rank(s.dirty, k) == j;
    assert(dirty_rank(s.dirty, k) < crate::render_abi::MAX_RENDER_CELLS);
}

/// The dirty flags after `k` renders.
pub open spec fn renders(dirty: Seq<bool>, k: nat) -> Seq<bool>
    decreases k,
{
    if k == 0 {
        dirty
    } else {
        rendered_dirty(renders(dirty, (k - 1) as nat))
    }
}

/// Renders drain the dirty cells `MAX_RENDER_CELLS` at a time: after `k`
/// of them, the dirty cells left are those beyond the first
/// `k * MAX_RENDER_CELLS`, none once that covers them all.
pub proof fn lemma_repeated_renders_drain(dirty: Seq<bool>, k: nat)
    ensures
        dirty_count(renders(dirty, k)) == if dirty_count(dirty) >= k * crate::render_abi::MAX_RENDER_CELLS {
            dirty_count(dirty) - k * crate::render_abi::MAX_RENDER_CELLS
        } else {
            0
        },
    decreases k,
{
    lemma_rendered_rank(dirty, dirty.len() as int);
    if k > 0 {
        let previous = renders(dirty, (k - 1) as nat);
        lemma_repeated_renders_drain(dirty, (k - 1) as nat);
        lemma_render_drains(previous);
        assert((k - 1) * crate::render_abi::MAX_RENDER_CELLS + crate::render_abi::MAX_RENDER_CELLS == k
            * crate::render_abi::MAX_RENDER_CELLS) by (nonlinear_arith);
    }
}

} // verus!
