//! Board cells in pixel space.
use vstd::prelude::*;
use crate::colors::Color;

verus! {

/// The side of one board cell on screen, in pixels.
pub const CELL_SIZE: i32 = 30;

/// The pixel offset, along both axes, at which the board is drawn.
pub const BOARD_OFFSET: i32 = 11;

/// A filled rectangle in pixel space: what a caller hands to its renderer.
#[derive(Clone, Copy, Debug, PartialEq, Eq, Structural)]
pub struct Rect {
    pub x: i32,
    pub y: i32,
    pub width: i32,
    pub height: i32,
    pub color: Color,
}

/// The pixel coordinate at which the cell with index `cell` along one axis
/// starts, when the drawing is shifted by `offset`.
pub open spec fn pixel(cell: int, offset: int) -> int {
    cell * CELL_SIZE + offset
}

/// Whether `pixel(cell, offset)` can be computed in `i32`, product first.
pub open spec fn pixel_fits(cell: int, offset: int) -> bool {
    &&& i32::MIN <= cell * CELL_SIZE <= i32::MAX
    &&& i32::MIN <= pixel(cell, offset) <= i32::MAX
}

impl Rect {
    /// Whether this rectangle is the picture of the cell at `(row, column)`:
    /// it starts at the cell's pixel position, leaves a gap of one pixel to
    /// its right and lower neighbours, and has the given colour.
    pub open spec fn paints(
        self,
        row: int,
        column: int,
        offset_x: int,
        offset_y: int,
        color: Color,
    ) -> bool {
        &&& self.x == pixel(column, offset_x)
        &&& self.y == pixel(row, offset_y)
        &&& self.width == CELL_SIZE - 1
        &&& self.height == CELL_SIZE - 1
        &&& self.color == color
    }
}

/// The rectangle that pictures the cell at `(row, column)`.
pub fn tile(row: i32, column: i32, offset_x: i32, offset_y: i32, color: Color) -> (rect: Rect)
    requires
        pixel_fits(column as int, offset_x as int),
        pixel_fits(row as int, offset_y as int),
    ensures
        rect.paints(row as int, column as int, offset_x as int, offset_y as int, color),
{
    Rect {
        x: column * CELL_SIZE + offset_x,
        y: row * CELL_SIZE + offset_y,
        width: CELL_SIZE - 1,
        height: CELL_SIZE - 1,
        color,
    }
}

} // verus!
