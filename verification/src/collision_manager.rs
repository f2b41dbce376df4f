//! The board: the fixed walls and floor, and the cells settled by locked
//! pieces.

use crate::blocks::{lemma_offsets_are_small, shape_cells, Block, BlockType};
use crate::block_data::state_offsets;
use crate::grid::{
    all_cells_in_field, all_in_field, in_field, Vec2, FIELD_FLOOR, FIELD_LEFT, FIELD_RIGHT,
};
use crate::lines::{
    cleared, drop_of, full_rows, lemma_cleared_has_no_full_row, lemma_cleared_has_no_gap,
    lemma_drop_bounds, lemma_piece_fills_at_most_four, no_full_row, no_gap, occupied_below,
    row_empty, row_full, row_vanishes, with_cells,
};
use crate::pixels::{
    container_cell, container_cells, container_collides, container_draw_rect, container_len,
    container_new, container_plot, container_remove, container_set_row, rect_cells,
};
use gemini_engine::containers::PixelContainer;
use vstd::prelude::*;

verus! {

/// Whether some pixel of `cells` lies at `(x, y)`.
pub open spec fn holds(cells: Seq<(i64, i64)>, x: int, y: int) -> bool {
    exists|i: int| 0 <= i < cells.len() && (#[trigger] cells[i]).0 == x && cells[i].1 == y
}

/// The positions of `cells` as a set.
pub open spec fn cell_set(cells: Seq<(i64, i64)>) -> Set<(int, int)> {
    Set::new(|c: (int, int)| holds(cells, c.0, c.1))
}

/// The pixels of the left wall, the right wall and the floor, in the order
/// in which they are drawn.
pub open spec fn border_cells() -> Seq<(i64, i64)> {
    rect_cells(0, 0, 1, 21) + rect_cells(11, 0, 1, 21) + rect_cells(1, 20, 10, 1)
}

/// Whether a piece cell at `(x, y)` would collide: it is left or right of
/// the playable columns, on or below the floor row, or on a settled cell.
/// Rows above the field are free.
pub open spec fn cell_blocked(settled: Set<(int, int)>, x: int, y: int) -> bool {
    x < FIELD_LEFT || x > FIELD_RIGHT || y >= FIELD_FLOOR || settled.contains((x, y))
}

/// Whether any of `cells` would collide.
pub open spec fn any_blocked(settled: Set<(int, int)>, cells: Seq<(int, int)>) -> bool {
    exists|k: int| 0 <= k < cells.len() && cell_blocked(settled, (#[trigger] cells[k]).0, cells[k].1)
}

/// Whether `shape`, in the state that `rotation` names, collides at `(x, y)`.
pub open spec fn shape_blocked(
    settled: Set<(int, int)>,
    shape: BlockType,
    rotation: int,
    x: int,
    y: int,
) -> bool {
    any_blocked(settled, shape_cells(shape, rotation, x, y))
}

/// No border pixel lies inside the playable area.
pub proof fn lemma_borders_lie_outside(x: int, y: int)
    requires
        holds(border_cells(), x, y),
    ensures
        !in_field(x, y),
        0 <= y,
{
    let left = rect_cells(0, 0, 1, 21);
    let right = rect_cells(11, 0, 1, 21);
    let floor = rect_cells(1, 20, 10, 1);
    let i = choose|i: int|
        0 <= i < border_cells().len() && (#[trigger] border_cells()[i]).0 == x && border_cells()[i].1
            == y;
    if i < 21 {
        assert(border_cells()[i] == left[i]);
    } else if i < 42 {
        assert(border_cells()[i] == right[i - 21]);
    } else {
        assert(border_cells()[i] == floor[i - 42]);
    }
}

/// The walls and the floor as a pixel container: a left wall in column `0`
/// and a right wall in column `11`, both over rows `0..=20`, and a floor in
/// row `20` under the ten playable columns.
pub fn generate_borders() -> (borders: PixelContainer)
    ensures
        container_cells(borders) == border_cells(),
{
    let mut borders = container_new();
    container_draw_rect(&mut borders, 0, 0, 1, 21);
    container_draw_rect(&mut borders, 11, 0, 1, 21);
    container_draw_rect(&mut borders, 1, 20, 10, 1);
    assert(container_cells(borders) =~= border_cells());
    borders
}

/// The index of the cell `(x, y)` in a row-by-row table of the playable area.
pub open spec fn slot(x: int, y: int) -> int {
    y * 10 + x - 1
}

/// Whether `grid` tells of every playable cell whether it is in `cells`.
pub open spec fn grid_shows(grid: Seq<bool>, cells: Set<(int, int)>) -> bool {
    &&& grid.len() == 200
    &&& forall|x: int, y: int| in_field(x, y) ==> grid[#[trigger] slot(x, y)] == cells.contains((x, y))
}

/// Classifies the twenty rows: which are full, and which are empty.
fn row_states(grid: &Vec<bool>, Ghost(cells): Ghost<Set<(int, int)>>) -> (states: (Vec<bool>, Vec<bool>))
    requires
        grid_shows(grid@, cells),
    ensures
        states.0@.len() == 20,
        states.1@.len() == 20,
        forall|y: int| 0 <= y < 20 ==> #[trigger] states.0@[y] == row_full(cells, y),
        forall|y: int| 0 <= y < 20 ==> #[trigger] states.1@[y] == row_empty(cells, y),
{
    let mut full: Vec<bool> = Vec::new();
    let mut vacant: Vec<bool> = Vec::new();
    let mut y: usize = 0;
    while y < 20
        invariant
            y <= 20,
            grid_shows(grid@, cells),
            full@.len() == y,
            vacant@.len() == y,
            forall|r: int| 0 <= r < y ==> #[trigger] full@[r] == row_full(cells, r),
            forall|r: int| 0 <= r < y ==> #[trigger] vacant@[r] == row_empty(cells, r),
        decreases 20 - y,
    {
        let mut all = true;
        let mut none = true;
        let mut x: usize = 1;
        while x <= 10
            invariant
                1 <= x <= 11,
                y < 20,
                grid_shows(grid@, cells),
                all == (forall|c: int| 1 <= c < x ==> #[trigger] cells.contains((c, y as int))),
                none == (forall|c: int| 1 <= c < x ==> !#[trigger] cells.contains((c, y as int))),
            decreases 11 - x,
        {
            assert(in_field(x as int, y as int));
            assert(grid@[slot(x as int, y as int)] == cells.contains((x as int, y as int)));
            let here = grid[y * 10 + x - 1];
            if here {
                none = false;
            } else {
                all = false;
            }
            x += 1;
        }
        full.push(all);
        vacant.push(none);
        y += 1;
    }
    (full, vacant)
}

/// For each row the number of rows by which its cells come down, and the
/// number of full rows.
fn drop_table(full: &Vec<bool>, vacant: &Vec<bool>, Ghost(cells): Ghost<Set<(int, int)>>) -> (table: (
    Vec<i64>,
    i64,
))
    requires
        full@.len() == 20,
        vacant@.len() == 20,
        forall|y: int| 0 <= y < 20 ==> #[trigger] full@[y] == row_full(cells, y),
        forall|y: int| 0 <= y < 20 ==> #[trigger] vacant@[y] == row_empty(cells, y),
    ensures
        table.0@.len() == 20,
        forall|y: int| 0 <= y < 20 ==> #[trigger] table.0@[y] == drop_of(cells, y),
        table.1 == full_rows(cells, 0),
        0 <= table.1 <= 20,
{
    let mut drops: Vec<i64> = vec![0i64; 20];
    let mut lines: i64 = if full[19] {
        1
    } else {
        0
    };
    let mut below = false;
    let mut y: usize = 19;
    assert(!occupied_below(cells, 19));
    assert(full_rows(cells, 19) == lines) by {
        assert(full_rows(cells, 20) == 0);
    }
    while y > 0
        invariant
            y <= 19,
            full@.len() == 20,
            vacant@.len() == 20,
            drops@.len() == 20,
            forall|r: int| 0 <= r < 20 ==> #[trigger] full@[r] == row_full(cells, r),
            forall|r: int| 0 <= r < 20 ==> #[trigger] vacant@[r] == row_empty(cells, r),
            forall|r: int| y <= r < 20 ==> #[trigger] drops@[r] == drop_of(cells, r),
            below == occupied_below(cells, y as int),
            lines == full_rows(cells, y as int),
            0 <= lines <= 20 - y,
        decreases y,
    {
        proof {
            lemma_drop_bounds(cells, y as int);
        }
        let gone = full[y] || (vacant[y] && below);
        assert(gone == row_vanishes(cells, y as int));
        let d = drops[y] + if gone {
            1
        } else {
            0
        };
        let ghost was_below = below;
        if !vacant[y] {
            below = true;
        }
        assert(below == occupied_below(cells, y - 1)) by {
            if occupied_below(cells, y - 1) {
                let r = choose|r: int| y - 1 < r < 20 && !#[trigger] row_empty(cells, r);
                if r > y {
                    assert(occupied_below(cells, y as int));
                }
            }
            if was_below {
                let r = choose|r: int| y < r < 20 && !#[trigger] row_empty(cells, r);
                assert(y - 1 < r < 20 && !row_empty(cells, r));
            }
            if !vacant@[y as int] {
                assert(y - 1 < y < 20 && !row_empty(cells, y as int));
            }
        }
        y -= 1;
        drops.set(y, d);
        if full[y] {
            lines += 1;
        }
    }
    (drops, lines)
}

/// The board. The walls and floor are fixed at creation; the settled cells
/// grow when a piece is committed and shrink or shift when lines are cleared.
pub struct CollisionManager {
    game_boundaries: PixelContainer,
    stationary_blocks: PixelContainer,
}

impl CollisionManager {
    /// What holds of every board: the boundary is the fixed border, and every
    /// settled cell lies inside the playable area.
    #[verifier::type_invariant]
    pub closed spec fn well_formed(self) -> bool {
        &&& container_cells(self.game_boundaries) == border_cells()
        &&& all_in_field(cell_set(container_cells(self.stationary_blocks)))
    }

    /// The settled cells.
    pub closed spec fn settled(self) -> Set<(int, int)> {
        cell_set(container_cells(self.stationary_blocks))
    }

    /// Every settled cell of a board lies inside the playable area.
    pub proof fn lemma_settled_in_field(self)
        requires
            self.well_formed(),
        ensures
            all_in_field(self.settled()),
    {
    }

    /// An empty board.
    pub fn new() -> (board: Self)
        ensures
            board.settled() == Set::<(int, int)>::empty(),
    {
        let board = CollisionManager {
            game_boundaries: generate_borders(),
            stationary_blocks: container_new(),
        };
        assert(board.settled() =~= Set::<(int, int)>::empty());
        board
    }

    /// The walls and the floor, for drawing.
    pub fn game_boundaries(&self) -> (borders: &PixelContainer)
        ensures
            container_cells(*borders) == border_cells(),
    {
        proof {
            use_type_invariant(self);
        }
        &self.game_boundaries
    }

    /// The settled cells, for drawing.
    pub fn stationary_blocks(&self) -> (blocks: &PixelContainer)
        ensures
            cell_set(container_cells(*blocks)) == self.settled(),
    {
        &self.stationary_blocks
    }

    /// Whether `block`, put in the state that `rotation` names and moved by
    /// `delta`, would collide with a wall, the floor or a settled cell.
    pub fn overlaps(&self, block: &Block, rotation: usize, delta: Vec2) -> (hit: bool)
        ensures
            hit == shape_blocked(
                self.settled(),
                block.shape,
                rotation as int,
                block.pos.x + delta.x,
                block.pos.y + delta.y,
            ),
    {
        proof {
            use_type_invariant(self);
            lemma_offsets_are_small(block.shape, rotation as int);
        }
        let offsets = block.shape.get_rotation_state(rotation);
        let ghost cells = shape_cells(
            block.shape,
            rotation as int,
            block.pos.x + delta.x,
            block.pos.y + delta.y,
        );
        let mut k: usize = 0;
        while k < 4
            invariant
                k <= 4,
                self.well_formed(),
                offsets@ == state_offsets(block.shape, rotation as int),
                cells == shape_cells(
                    block.shape,
                    rotation as int,
                    block.pos.x + delta.x,
                    block.pos.y + delta.y,
                ),
                forall|j: int|
                    0 <= j < k ==> !cell_blocked(self.settled(), (#[trigger] cells[j]).0, cells[j].1),
            decreases 4 - k,
        {
            let x: i128 = block.pos.x as i128 + delta.x as i128 + offsets[k].x as i128;
            let y: i128 = block.pos.y as i128 + delta.y as i128 + offsets[k].y as i128;
            assert(cells[k as int] == (x as int, y as int));
            if self.cell_is_blocked(x, y) {
                return true;
            }
            k += 1;
        }
        false
    }

    /// Commits `block`: its cells join the settled cells. Nothing is tested
    /// here but that the piece lies inside the playable area; whether the
    /// placement is legal is the caller's to decide.
    pub fn draw(&mut self, block: &Block)
        requires
            all_cells_in_field(block.cells(block.rotation as int)),
        ensures
            final(self).settled() == with_cells(old(self).settled(), block.cells(block.rotation as int)),
    {
        proof {
            use_type_invariant(&*self);
            lemma_offsets_are_small(block.shape, block.rotation as int);
        }
        let offsets = block.shape.get_rotation_state(block.rotation);
        let colour = block.shape.get_colour();
        let ghost cells = block.cells(block.rotation as int);
        let ghost before = container_cells(self.stationary_blocks);
        // The container is worked on outside the board, which stays valid meanwhile.
        let mut blocks = container_new();
        core::mem::swap(&mut self.stationary_blocks, &mut blocks);
        let mut k: usize = 0;
        while k < 4
            invariant
                k <= 4,
                offsets@ == state_offsets(block.shape, block.rotation as int),
                cells == block.cells(block.rotation as int),
                all_cells_in_field(cells),
                container_cells(blocks).len() == before.len() + k,
                forall|i: int| 0 <= i < before.len() ==> #[trigger] container_cells(blocks)[i] == before[i],
                forall|j: int|
                    0 <= j < k ==> (#[trigger] container_cells(blocks)[before.len() + j]).0 == cells[j].0
                        && container_cells(blocks)[before.len() + j].1 == cells[j].1,
            decreases 4 - k,
        {
            assert(in_field(cells[k as int].0, cells[k as int].1));
            let x = block.pos.x + offsets[k].x;
            let y = block.pos.y + offsets[k].y;
            container_plot(&mut blocks, x, y, colour);
            k += 1;
        }
        proof {
            let now = container_cells(blocks);
            assert forall|c: (int, int)| cell_set(now).contains(c) == with_cells(
                cell_set(before),
                cells,
            ).contains(c) by {
                if holds(now, c.0, c.1) {
                    let i = choose|i: int|
                        0 <= i < now.len() && (#[trigger] now[i]).0 == c.0 && now[i].1 == c.1;
                    if i < before.len() {
                        assert(before[i].0 == c.0 && before[i].1 == c.1);
                    } else {
                        let j = i - before.len();
                        assert(now[before.len() + j].0 == cells[j].0);
                        assert(cells[j] == c);
                    }
                }
                if holds(before, c.0, c.1) {
                    let i = choose|i: int|
                        0 <= i < before.len() && (#[trigger] before[i]).0 == c.0 && before[i].1 == c.1;
                    assert(now[i].0 == c.0 && now[i].1 == c.1);
                }
                if cells.contains(c) {
                    let j = choose|j: int| 0 <= j < cells.len() && cells[j] == c;
                    assert(now[before.len() + j].0 == c.0 && now[before.len() + j].1 == c.1);
                }
            }
            assert(cell_set(now) =~= with_cells(cell_set(before), cells));
            assert forall|x: int, y: int| #[trigger] cell_set(now).contains((x, y)) implies in_field(
                x,
                y,
            ) by {
                if cells.contains((x, y)) {
                    let j = choose|j: int| 0 <= j < cells.len() && cells[j] == (x, y);
                    assert(in_field(cells[j].0, cells[j].1));
                }
            }
        }
        self.stationary_blocks = blocks;
    }

    /// A table of the playable area that tells of each cell whether it is
    /// settled.
    fn occupancy(&self) -> (grid: Vec<bool>)
        ensures
            grid_shows(grid@, self.settled()),
    {
        proof {
            use_type_invariant(self);
        }
        let ghost cells = container_cells(self.stationary_blocks);
        let n = container_len(&self.stationary_blocks);
        let mut grid: Vec<bool> = vec![false; 200];
        let mut i: usize = 0;
        while i < n
            invariant
                i <= n,
                n == cells.len(),
                cells == container_cells(self.stationary_blocks),
                all_in_field(cell_set(cells)),
                grid@.len() == 200,
                forall|x: int, y: int|
                    in_field(x, y) ==> grid@[#[trigger] slot(x, y)] == holds(cells.take(i as int), x, y),
            decreases n - i,
        {
            let (cx, cy) = container_cell(&self.stationary_blocks, i);
            assert(cell_set(cells).contains((cx as int, cy as int))) by {
                assert(cells[i as int].0 == cx && cells[i as int].1 == cy);
            }
            assert(in_field(cx as int, cy as int));
            let at = (cy as usize) * 10 + (cx as usize) - 1;
            grid.set(at, true);
            proof {
                let prev = cells.take(i as int);
                let next = cells.take(i + 1);
                assert forall|x: int, y: int| in_field(x, y) implies grid@[#[trigger] slot(x, y)] == holds(
                    next,
                    x,
                    y,
                ) by {
                    if holds(prev, x, y) {
                        let j = choose|j: int|
                            0 <= j < prev.len() && (#[trigger] prev[j]).0 == x && prev[j].1 == y;
                        assert(next[j].0 == x && next[j].1 == y);
                    }
                    if holds(next, x, y) {
                        let j = choose|j: int|
                            0 <= j < next.len() && (#[trigger] next[j]).0 == x && next[j].1 == y;
                        if j < i {
                            assert(prev[j].0 == x && prev[j].1 == y);
                        }
                    }
                    if slot(x, y) == at {
                        assert(x == cx && y == cy);
                        assert(next[i as int].0 == x && next[i as int].1 == y);
                    }
                }
            }
            i += 1;
        }
        assert(cells.take(n as int) =~= cells);
        grid
    }

    /// The number of full rows.
    pub fn count_full_rows(&self) -> (lines: i64)
        ensures
            lines == full_rows(self.settled(), 0),
    {
        let grid = self.occupancy();
        let (full, vacant) = row_states(&grid, Ghost(self.settled()));
        let (_, lines) = drop_table(&full, &vacant, Ghost(self.settled()));
        lines
    }

    /// Removes every full row and closes the gaps: each remaining cell comes
    /// down by one row for every row beneath it that was full, or that was
    /// empty with settled cells below it. Returns the number of full rows
    /// that were removed.
    pub fn clear_filled_lines(&mut self) -> (lines: i64)
        ensures
            final(self).settled() == cleared(old(self).settled()),
            lines == full_rows(old(self).settled(), 0),
            0 <= lines <= FIELD_FLOOR,
            no_full_row(final(self).settled()),
            no_gap(final(self).settled()),
    {
        proof {
            use_type_invariant(&*self);
            lemma_cleared_has_no_full_row(self.settled());
            lemma_cleared_has_no_gap(self.settled());
        }
        let ghost settled = self.settled();
        let ghost orig = container_cells(self.stationary_blocks);
        let grid = self.occupancy();
        let (full, vacant) = row_states(&grid, Ghost(settled));
        let (drops, lines) = drop_table(&full, &vacant, Ghost(settled));
        // The container is worked on outside the board, which stays valid meanwhile.
        let mut blocks = container_new();
        core::mem::swap(&mut self.stationary_blocks, &mut blocks);
        let n = container_len(&blocks);
        let mut left: usize = n;
        let mut i: usize = 0;
        let ghost mut source: Seq<int> = Seq::empty();
        let ghost mut target: Seq<int> = Seq::empty();
        while left > 0
            invariant
                left <= n,
                i + left <= n,
                n == orig.len(),
                all_in_field(cell_set(orig)),
                settled == cell_set(orig),
                full@.len() == 20,
                drops@.len() == 20,
                forall|y: int| 0 <= y < 20 ==> #[trigger] full@[y] == row_full(settled, y),
                forall|y: int| 0 <= y < 20 ==> #[trigger] drops@[y] == drop_of(settled, y),
                container_cells(blocks).len() == i + left,
                forall|t: int|
                    0 <= t < left ==> #[trigger] container_cells(blocks)[i + t] == orig[n - left + t],
                source.len() == i,
                target.len() == n - left,
                forall|a: int|
                    0 <= a < i ==> {
                        let m = #[trigger] source[a];
                        &&& 0 <= m < n - left
                        &&& !row_full(settled, orig[m].1 as int)
                        &&& container_cells(blocks)[a].0 == orig[m].0
                        &&& container_cells(blocks)[a].1 == orig[m].1 + drop_of(settled, orig[m].1 as int)
                    },
                forall|m: int|
                    0 <= m < n - left && !row_full(settled, orig[m].1 as int) ==> {
                        let a = #[trigger] target[m];
                        &&& 0 <= a < i
                        &&& container_cells(blocks)[a].0 == orig[m].0
                        &&& container_cells(blocks)[a].1 == orig[m].1 + drop_of(settled, orig[m].1 as int)
                    },
            decreases left,
        {
            let ghost j = n - left;
            let ghost prior = container_cells(blocks);
            assert(prior[i + 0] == orig[j + 0]);
            let (x, y) = container_cell(&blocks, i);
            assert(cell_set(orig).contains((x as int, y as int))) by {
                assert(orig[j].0 == x && orig[j].1 == y);
            }
            assert(in_field(x as int, y as int));
            if full[y as usize] {
                container_remove(&mut blocks, i);
                proof {
                    target = target.push(0);
                    let now = container_cells(blocks);
                    assert forall|t: int| 0 <= t < left - 1 implies #[trigger] now[i + t] == orig[n - (left
                        - 1) + t] by {
                        assert(now[i + t] == prior[i + (t + 1)]);
                    }
                }
            } else {
                proof {
                    lemma_drop_bounds(settled, y as int);
                }
                container_set_row(&mut blocks, i, y + drops[y as usize]);
                proof {
                    source = source.push(j);
                    target = target.push(i as int);
                    let now = container_cells(blocks);
                    assert forall|t: int| 0 <= t < left - 1 implies #[trigger] now[i + 1 + t] == orig[n
                        - (left - 1) + t] by {
                        assert(now[i + 1 + t] == prior[i + (t + 1)]);
                    }
                }
                i += 1;
            }
            left -= 1;
        }
        proof {
            let now = container_cells(blocks);
            assert forall|c: (int, int)| cell_set(now).contains(c) == cleared(settled).contains(c) by {
                if holds(now, c.0, c.1) {
                    let a = choose|a: int|
                        0 <= a < now.len() && (#[trigger] now[a]).0 == c.0 && now[a].1 == c.1;
                    let m = source[a];
                    let y = orig[m].1 as int;
                    assert(holds(orig, c.0, y));
                    assert(settled.contains((c.0, y)));
                    assert(in_field(c.0, y));
                }
                if cleared(settled).contains(c) {
                    let y = choose|y: int|
                        0 <= y < FIELD_FLOOR && #[trigger] settled.contains((c.0, y)) && !row_full(
                            settled,
                            y,
                        ) && y + drop_of(settled, y) == c.1;
                    let m = choose|m: int|
                        0 <= m < orig.len() && (#[trigger] orig[m]).0 == c.0 && orig[m].1 == y;
                    let a = target[m];
                    assert(now[a].0 == c.0 && now[a].1 == c.1);
                }
            }
            assert(cell_set(now) =~= cleared(settled));
            assert forall|x: int, y: int| #[trigger] cell_set(now).contains((x, y)) implies in_field(
                x,
                y,
            ) by {
                let r = choose|r: int|
                    0 <= r < FIELD_FLOOR && #[trigger] settled.contains((x, r)) && !row_full(settled, r)
                        && r + drop_of(settled, r) == y;
                lemma_drop_bounds(settled, r);
                assert(in_field(x, r));
            }
        }
        self.stationary_blocks = blocks;
        lines
    }

    /// Commits `block`, then clears the full rows. Returns the number of
    /// rows that were removed.
    pub fn draw_and_clear_lines(&mut self, block: &Block) -> (lines: i64)
        requires
            all_cells_in_field(block.cells(block.rotation as int)),
        ensures
            final(self).settled() == cleared(
                with_cells(old(self).settled(), block.cells(block.rotation as int)),
            ),
            lines == full_rows(with_cells(old(self).settled(), block.cells(block.rotation as int)), 0),
            no_full_row(old(self).settled()) ==> 0 <= lines <= 4,
            no_full_row(final(self).settled()),
            no_gap(final(self).settled()),
    {
        proof {
            if no_full_row(self.settled()) {
                lemma_piece_fills_at_most_four(self.settled(), block.cells(block.rotation as int));
            }
        }
        self.draw(block);
        self.clear_filled_lines()
    }

    /// Settles the single cell `cell`, drawn in the colour of `shape`, if it
    /// lies inside the playable area; else leaves the board as it is.
    /// Returns whether the cell was settled.
    pub fn place(&mut self, cell: Vec2, shape: BlockType) -> (placed: bool)
        ensures
            placed == in_field(cell.x as int, cell.y as int),
            final(self).settled() == if placed {
                old(self).settled().insert((cell.x as int, cell.y as int))
            } else {
                old(self).settled()
            },
    {
        proof {
            use_type_invariant(&*self);
        }
        if cell.x < FIELD_LEFT || cell.x > FIELD_RIGHT || cell.y < 0 || cell.y >= FIELD_FLOOR {
            return false;
        }
        let ghost before = container_cells(self.stationary_blocks);
        // The container is worked on outside the board, which stays valid meanwhile.
        let mut blocks = container_new();
        core::mem::swap(&mut self.stationary_blocks, &mut blocks);
        container_plot(&mut blocks, cell.x, cell.y, shape.get_colour());
        proof {
            let now = container_cells(blocks);
            let grown = cell_set(before).insert((cell.x as int, cell.y as int));
            assert forall|c: (int, int)| cell_set(now).contains(c) == grown.contains(c) by {
                if holds(now, c.0, c.1) {
                    let i = choose|i: int|
                        0 <= i < now.len() && (#[trigger] now[i]).0 == c.0 && now[i].1 == c.1;
                    if i < before.len() {
                        assert(before[i].0 == c.0 && before[i].1 == c.1);
                    }
                }
                if holds(before, c.0, c.1) {
                    let i = choose|i: int|
                        0 <= i < before.len() && (#[trigger] before[i]).0 == c.0 && before[i].1 == c.1;
                    assert(now[i].0 == c.0 && now[i].1 == c.1);
                }
                if c == (cell.x as int, cell.y as int) {
                    assert(now[before.len() as int].0 == c.0 && now[before.len() as int].1 == c.1);
                }
            }
            assert(cell_set(now) =~= grown);
        }
        self.stationary_blocks = blocks;
        true
    }

    /// The settled cells, as a list.
    pub fn settled_cells(&self) -> (cells: Vec<Vec2>)
        ensures
            forall|x: int, y: int|
                self.settled().contains((x, y)) <==> cells@.contains(Vec2 { x: x as i64, y: y as i64 })
                    && in_field(x, y),
            forall|i: int|
                0 <= i < cells@.len() ==> in_field((#[trigger] cells@[i]).x as int, cells@[i].y as int),
    {
        proof {
            use_type_invariant(self);
        }
        let ghost held = container_cells(self.stationary_blocks);
        let n = container_len(&self.stationary_blocks);
        let mut cells: Vec<Vec2> = Vec::new();
        let mut i: usize = 0;
        while i < n
            invariant
                i <= n,
                n == held.len(),
                held == container_cells(self.stationary_blocks),
                cells@.len() == i,
                forall|j: int|
                    0 <= j < i ==> (#[trigger] cells@[j]).x == held[j].0 && cells@[j].y == held[j].1,
            decreases n - i,
        {
            let (x, y) = container_cell(&self.stationary_blocks, i);
            cells.push(Vec2::new(x, y));
            i += 1;
        }
        proof {
            assert forall|j: int| 0 <= j < cells@.len() implies in_field(
                (#[trigger] cells@[j]).x as int,
                cells@[j].y as int,
            ) by {
                assert(held[j].0 == cells@[j].x && held[j].1 == cells@[j].y);
                assert(cell_set(held).contains((cells@[j].x as int, cells@[j].y as int)));
            }
            assert forall|x: int, y: int|
                self.settled().contains((x, y)) <==> cells@.contains(Vec2 { x: x as i64, y: y as i64 })
                    && in_field(x, y) by {
                let wanted = Vec2 { x: x as i64, y: y as i64 };
                if self.settled().contains((x, y)) {
                    let j = choose|j: int|
                        0 <= j < held.len() && (#[trigger] held[j]).0 == x && held[j].1 == y;
                    assert(cells@[j] == wanted);
                }
                if cells@.contains(wanted) && in_field(x, y) {
                    let j = choose|j: int| 0 <= j < cells@.len() && cells@[j] == wanted;
                    assert(held[j].0 == x && held[j].1 == y);
                }
            }
        }
        cells
    }

    /// Whether a piece cell at `(x, y)` would collide.
    pub fn cell_is_blocked(&self, x: i128, y: i128) -> (hit: bool)
        ensures
            hit == cell_blocked(self.settled(), x as int, y as int),
    {
        proof {
            use_type_invariant(self);
        }
        if x < FIELD_LEFT as i128 || x > FIELD_RIGHT as i128 || y >= FIELD_FLOOR as i128 {
            true
        } else if y < 0 {
            assert(!self.settled().contains((x as int, y as int)));
            false
        } else {
            let on_border = container_collides(&self.game_boundaries, x as i64, y as i64);
            let on_block = container_collides(&self.stationary_blocks, x as i64, y as i64);
            proof {
                let border = container_cells(self.game_boundaries);
                if on_border {
                    let i = choose|i: int| 0 <= i < border.len() && border[i] == (x as i64, y as i64);
                    assert(border[i].0 == x && border[i].1 == y);
                    lemma_borders_lie_outside(x as int, y as int);
                }
                let blocks = container_cells(self.stationary_blocks);
                if on_block {
                    let i = choose|i: int| 0 <= i < blocks.len() && blocks[i] == (x as i64, y as i64);
                    assert(blocks[i].0 == x && blocks[i].1 == y);
                }
                if self.settled().contains((x as int, y as int)) {
                    let i = choose|i: int|
                        0 <= i < blocks.len() && (#[trigger] blocks[i]).0 == x && blocks[i].1 == y;
                    assert(blocks[i] == (x as i64, y as i64));
                }
            }
            on_border || on_block
        }
    }
}

} // verus!
