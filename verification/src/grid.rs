//! Grid coordinates and the fixed geometry of the playfield.
//!
//! The origin is the top-left corner; `x` grows to the right and `y` grows
//! downward. The playable area is ten columns wide (`1..=10`) and twenty rows
//! tall (`0..=19`); column `0`, column `11` and row `20` hold the walls and
//! the floor.

use vstd::prelude::*;

verus! {

/// Leftmost playable column.
pub const FIELD_LEFT: i64 = 1;

/// Rightmost playable column.
pub const FIELD_RIGHT: i64 = 10;

/// Row of the floor; the playable rows are `0..FIELD_FLOOR`.
pub const FIELD_FLOOR: i64 = 20;

/// An integer grid vector: a position on the grid, or a shift.
#[derive(Clone, Copy, Debug, PartialEq, Eq, Hash, Structural)]
pub struct Vec2 {
    pub x: i64,
    pub y: i64,
}

impl Vec2 {
    /// The vector as a pair of mathematical integers.
    pub open spec fn cell(self) -> (int, int) {
        (self.x as int, self.y as int)
    }

    pub fn new(x: i64, y: i64) -> (v: Self)
        ensures
            v == (Vec2 { x, y }),
    {
        Vec2 { x, y }
    }
}

/// Whether `(x, y)` lies inside the playable area.
pub open spec fn in_field(x: int, y: int) -> bool {
    FIELD_LEFT <= x <= FIELD_RIGHT && 0 <= y < FIELD_FLOOR
}

/// Whether every cell of `cells` lies inside the playable area.
pub open spec fn all_in_field(cells: Set<(int, int)>) -> bool {
    forall|x: int, y: int| #[trigger] cells.contains((x, y)) ==> in_field(x, y)
}

/// Whether every one of `cells` lies inside the playable area.
pub open spec fn all_cells_in_field(cells: Seq<(int, int)>) -> bool {
    forall|k: int| 0 <= k < cells.len() ==> in_field((#[trigger] cells[k]).0, cells[k].1)
}

} // verus!
