//! The cell and render-message records that the terminal sends the
//! display service.

use vstd::prelude::*;

verus! {

pub const MAX_COLUMNS: usize = 160;
pub const MAX_ROWS: usize = 50;
pub const MAX_RENDER_CELLS: usize = 128;

#[derive(Clone, Copy, Debug, PartialEq, Eq, Structural)]
pub struct Cell {
    pub codepoint: u32,
    pub foreground: u32,
    pub background: u32,
    pub attributes: u16,
    pub width: u8,
    pub reserved: u8,
}

impl Cell {
    pub open spec fn empty_spec() -> Cell {
        Cell { codepoint: 0, foreground: 0, background: 0, attributes: 0, width: 0, reserved: 0 }
    }

    /// The blank cell.
    pub fn empty() -> (r: Cell)
        ensures
            r == Cell::empty_spec(),
    {
        Cell { codepoint: 0, foreground: 0, background: 0, attributes: 0, width: 0, reserved: 0 }
    }
}

#[derive(Clone, Copy, Debug, PartialEq, Eq, Structural)]
pub enum MessageKind {
    Input,
    RenderCells,
    FullRedraw,
    Key,
    Text,
    Paste,
    SessionInput,
}

/// A batch of cell updates: `count` cells placed at `positions` (row
/// times `MAX_COLUMNS` plus column) on a `columns` by `rows` page.
#[derive(Clone, Copy, Debug)]
pub struct RenderMessage {
    pub kind: MessageKind,
    pub columns: u16,
    pub rows: u16,
    pub cursor_column: u16,
    pub cursor_row: u16,
    pub count: u16,
    pub positions: [u16; MAX_RENDER_CELLS],
    pub cells: [Cell; MAX_RENDER_CELLS],
}

impl RenderMessage {
    /// A message of `kind` that carries nothing.
    pub fn empty(kind: MessageKind) -> (r: RenderMessage)
        ensures
            r.kind == kind,
            r.columns == 0,
            r.rows == 0,
            r.cursor_column == 0,
            r.cursor_row == 0,
            r.count == 0,
            forall|i: int| 0 <= i < MAX_RENDER_CELLS ==> r.positions@[i] == 0 && r.cells@[i]
                == Cell::empty_spec(),
    {
        RenderMessage {
            kind,
            columns: 0,
            rows: 0,
            cursor_column: 0,
            cursor_row: 0,
            count: 0,
            positions: [0u16; MAX_RENDER_CELLS],
            cells: [Cell::empty(); MAX_RENDER_CELLS],
        }
    }
}

} // verus!
