//! What clearing lines does to a set of settled cells.
//!
//! A row is full when all ten playable columns of it are settled. Full rows
//! are removed. Every row that is then empty and has settled cells somewhere
//! below it is closed up: the cells above come down by one row for each such
//! row beneath them.

use crate::grid::{all_in_field, in_field, FIELD_FLOOR, FIELD_LEFT, FIELD_RIGHT};
use vstd::prelude::*;

verus! {

/// Whether every playable column of row `y` is settled.
pub open spec fn row_full(cells: Set<(int, int)>, y: int) -> bool {
    forall|x: int| FIELD_LEFT <= x <= FIELD_RIGHT ==> #[trigger] cells.contains((x, y))
}

/// Whether no playable column of row `y` is settled.
pub open spec fn row_empty(cells: Set<(int, int)>, y: int) -> bool {
    forall|x: int| FIELD_LEFT <= x <= FIELD_RIGHT ==> !#[trigger] cells.contains((x, y))
}

/// Whether some row below `y` holds a settled cell.
pub open spec fn occupied_below(cells: Set<(int, int)>, y: int) -> bool {
    exists|r: int| y < r < FIELD_FLOOR && !#[trigger] row_empty(cells, r)
}

/// Whether some row above `y` holds a settled cell.
pub open spec fn occupied_above(cells: Set<(int, int)>, y: int) -> bool {
    exists|r: int| 0 <= r < y && !#[trigger] row_empty(cells, r)
}

/// Whether row `y` goes away when lines are cleared: it is full, or it is an
/// empty row with settled cells below it.
pub open spec fn row_vanishes(cells: Set<(int, int)>, y: int) -> bool {
    row_full(cells, y) || (row_empty(cells, y) && occupied_below(cells, y))
}

/// By how many rows the cells of row `y` come down: the number of rows
/// below `y` that go away.
pub open spec fn drop_of(cells: Set<(int, int)>, y: int) -> int
    decreases FIELD_FLOOR - y,
{
    if y >= FIELD_FLOOR - 1 {
        0
    } else {
        drop_of(cells, y + 1) + if row_vanishes(cells, y + 1) {
            1int
        } else {
            0int
        }
    }
}

/// The number of full rows among the rows `from..20`.
pub open spec fn full_rows(cells: Set<(int, int)>, from: int) -> int
    decreases FIELD_FLOOR - from,
{
    if from >= FIELD_FLOOR {
        0
    } else {
        full_rows(cells, from + 1) + if row_full(cells, from) {
            1int
        } else {
            0int
        }
    }
}

/// The settled cells after clearing: every cell of a row that is not full,
/// lowered by the drop of its row.
pub open spec fn cleared(cells: Set<(int, int)>) -> Set<(int, int)> {
    Set::new(
        |c: (int, int)|
            exists|y: int|
                0 <= y < FIELD_FLOOR && #[trigger] cells.contains((c.0, y)) && !row_full(cells, y) && y
                    + drop_of(cells, y) == c.1,
    )
}

/// A drop never takes a row past the bottom row.
pub proof fn lemma_drop_bounds(cells: Set<(int, int)>, y: int)
    requires
        y < FIELD_FLOOR,
    ensures
        0 <= drop_of(cells, y) <= FIELD_FLOOR - 1 - y,
    decreases FIELD_FLOOR - y,
{
    if y < FIELD_FLOOR - 1 {
        lemma_drop_bounds(cells, y + 1);
    }
}

/// Where the cells of row `y` stand after clearing.
pub open spec fn row_after(cells: Set<(int, int)>, y: int) -> int {
    y + drop_of(cells, y)
}

/// Whether row `y` outlasts a clearing with cells in it: it holds a settled
/// cell and is not full.
pub open spec fn row_stays(cells: Set<(int, int)>, y: int) -> bool {
    !row_full(cells, y) && !row_empty(cells, y)
}

/// Whether no row of the field is full.
pub open spec fn no_full_row(cells: Set<(int, int)>) -> bool {
    forall|y: int| 0 <= y < FIELD_FLOOR ==> !#[trigger] row_full(cells, y)
}

/// Whether no empty row lies between settled cells.
pub open spec fn no_gap(cells: Set<(int, int)>) -> bool {
    forall|y: int|
        0 <= y < FIELD_FLOOR && #[trigger] row_empty(cells, y) ==> !(occupied_above(cells, y)
            && occupied_below(cells, y))
}

/// Rows that stay keep their order, and no two of them end in one row: a
/// row that does not go away ends strictly below every row above it.
pub proof fn lemma_rows_keep_order(cells: Set<(int, int)>, a: int, b: int)
    requires
        a < b < FIELD_FLOOR,
        !row_vanishes(cells, b),
    ensures
        row_after(cells, a) < row_after(cells, b),
    decreases b - a,
{
    if a + 1 < b {
        lemma_rows_keep_order(cells, a + 1, b);
    }
}

/// A cell stands in the cleared set exactly if it comes from a cell of a
/// row that is not full, lowered by the drop of that row.
pub proof fn lemma_cleared_cell(cells: Set<(int, int)>, x: int, y: int)
    requires
        0 <= y < FIELD_FLOOR,
        cells.contains((x, y)),
        !row_full(cells, y),
    ensures
        cleared(cells).contains((x, row_after(cells, y))),
{
    let c = (x, row_after(cells, y));
    assert(cells.contains((c.0, y)));
}

/// The cleared cells lie inside the playable area.
pub proof fn lemma_cleared_in_field(cells: Set<(int, int)>)
    requires
        all_in_field(cells),
    ensures
        all_in_field(cleared(cells)),
{
    let after = cleared(cells);
    assert forall|x: int, y: int| #[trigger] after.contains((x, y)) implies in_field(x, y) by {
        let r = choose|r: int|
            0 <= r < FIELD_FLOOR && #[trigger] cells.contains((x, r)) && !row_full(cells, r) && r + drop_of(
                cells,
                r,
            ) == y;
        lemma_drop_bounds(cells, r);
        assert(in_field(x, r));
    }
}

/// After clearing, no row is full.
pub proof fn lemma_cleared_has_no_full_row(cells: Set<(int, int)>)
    requires
        all_in_field(cells),
    ensures
        no_full_row(cleared(cells)),
{
    let after = cleared(cells);
    assert forall|y: int| 0 <= y < FIELD_FLOOR implies !#[trigger] row_full(after, y) by {
        if row_full(after, y) {
            assert(after.contains((FIELD_LEFT as int, y)));
            let r = choose|r: int|
                0 <= r < FIELD_FLOOR && #[trigger] cells.contains((FIELD_LEFT as int, r)) && !row_full(
                    cells,
                    r,
                ) && r + drop_of(cells, r) == y;
            assert forall|x: int| FIELD_LEFT <= x <= FIELD_RIGHT implies #[trigger] cells.contains(
                (x, r),
            ) by {
                assert(after.contains((x, y)));
                let q = choose|q: int|
                    0 <= q < FIELD_FLOOR && #[trigger] cells.contains((x, q)) && !row_full(cells, q) && q
                        + drop_of(cells, q) == y;
                assert(!row_empty(cells, q));
                assert(!row_empty(cells, r));
                if q < r {
                    lemma_rows_keep_order(cells, q, r);
                } else if r < q {
                    lemma_rows_keep_order(cells, r, q);
                }
            }
            assert(row_full(cells, r));
        }
    }
}

/// Between a row and a row below it that stays, every row in which cells
/// could end is taken by a row that stays.
proof fn lemma_rows_close_up(cells: Set<(int, int)>, a: int, b: int, t: int)
    requires
        0 <= a <= b < FIELD_FLOOR,
        row_stays(cells, b),
        row_after(cells, a) < t <= row_after(cells, b),
    ensures
        exists|r: int| a < r <= b && #[trigger] row_stays(cells, r) && row_after(cells, r) == t,
    decreases b - a,
{
    if a < b {
        let next = a + 1;
        if row_vanishes(cells, next) {
            lemma_rows_close_up(cells, next, b, t);
            let r = choose|r: int|
                next < r <= b && #[trigger] row_stays(cells, r) && row_after(cells, r) == t;
            assert(a < r <= b && row_stays(cells, r) && row_after(cells, r) == t);
        } else {
            if next < b {
                assert(occupied_below(cells, next)) by {
                    assert(next < b < FIELD_FLOOR && !row_empty(cells, b));
                }
            }
            assert(row_stays(cells, next));
            if t == row_after(cells, next) {
                assert(a < next <= b && row_stays(cells, next) && row_after(cells, next) == t);
            } else {
                lemma_rows_close_up(cells, next, b, t);
                let r = choose|r: int|
                    next < r <= b && #[trigger] row_stays(cells, r) && row_after(cells, r) == t;
                assert(a < r <= b && row_stays(cells, r) && row_after(cells, r) == t);
            }
        }
    }
}

/// A row of the cleared set that holds a cell comes from a row that stays.
proof fn lemma_occupied_row_has_source(cells: Set<(int, int)>, y: int) -> (r: int)
    requires
        all_in_field(cells),
        !row_empty(cleared(cells), y),
    ensures
        0 <= r < FIELD_FLOOR,
        row_stays(cells, r),
        row_after(cells, r) == y,
{
    let after = cleared(cells);
    let x = choose|x: int| FIELD_LEFT <= x <= FIELD_RIGHT && #[trigger] after.contains((x, y));
    let r = choose|r: int|
        0 <= r < FIELD_FLOOR && #[trigger] cells.contains((x, r)) && !row_full(cells, r) && r + drop_of(
            cells,
            r,
        ) == y;
    assert(in_field(x, r));
    r
}

/// After clearing, no empty row is left between settled cells.
pub proof fn lemma_cleared_has_no_gap(cells: Set<(int, int)>)
    requires
        all_in_field(cells),
    ensures
        no_gap(cleared(cells)),
{
    let after = cleared(cells);
    assert forall|y: int|
        0 <= y < FIELD_FLOOR && #[trigger] row_empty(after, y) implies !(occupied_above(after, y)
        && occupied_below(after, y)) by {
        if occupied_above(after, y) && occupied_below(after, y) {
            let above = choose|r: int| 0 <= r < y && !#[trigger] row_empty(after, r);
            let below = choose|r: int| y < r < FIELD_FLOOR && !#[trigger] row_empty(after, r);
            let a = lemma_occupied_row_has_source(cells, above);
            let b = lemma_occupied_row_has_source(cells, below);
            if b < a {
                lemma_rows_keep_order(cells, b, a);
            }
            lemma_rows_close_up(cells, a, b, y);
            let r = choose|r: int| a < r <= b && #[trigger] row_stays(cells, r) && row_after(cells, r) == y;
            let x = choose|x: int| FIELD_LEFT <= x <= FIELD_RIGHT && #[trigger] cells.contains((x, r));
            lemma_cleared_cell(cells, x, r);
        }
    }
}

/// No row is full exactly if the count of full rows is nought.
pub proof fn lemma_no_full_row_counts_nought(cells: Set<(int, int)>, from: int)
    requires
        0 <= from <= FIELD_FLOOR,
    ensures
        full_rows(cells, from) >= 0,
        full_rows(cells, from) == 0 <==> (forall|y: int|
            from <= y < FIELD_FLOOR ==> !#[trigger] row_full(cells, y)),
    decreases FIELD_FLOOR - from,
{
    if from < FIELD_FLOOR {
        lemma_no_full_row_counts_nought(cells, from + 1);
    }
}

/// How many of the four `cells` lie in row `from` or below.
pub open spec fn rows_reached(cells: Seq<(int, int)>, from: int) -> int {
    (if cells[0].1 >= from {
        1int
    } else {
        0int
    }) + (if cells[1].1 >= from {
        1int
    } else {
        0int
    }) + (if cells[2].1 >= from {
        1int
    } else {
        0int
    }) + (if cells[3].1 >= from {
        1int
    } else {
        0int
    })
}

/// `settled` grown by `cells`.
pub open spec fn with_cells(settled: Set<(int, int)>, cells: Seq<(int, int)>) -> Set<(int, int)> {
    Set::new(|c: (int, int)| settled.contains(c) || cells.contains(c))
}

proof fn lemma_full_rows_need_cells(settled: Set<(int, int)>, cells: Seq<(int, int)>, from: int)
    requires
        no_full_row(settled),
        cells.len() == 4,
        0 <= from <= FIELD_FLOOR,
    ensures
        0 <= full_rows(with_cells(settled, cells), from) <= rows_reached(cells, from),
    decreases FIELD_FLOOR - from,
{
    let stacked = with_cells(settled, cells);
    if from < FIELD_FLOOR {
        lemma_full_rows_need_cells(settled, cells, from + 1);
        if row_full(stacked, from) {
            assert(!row_full(settled, from));
            let x = choose|x: int| FIELD_LEFT <= x <= FIELD_RIGHT && !#[trigger] settled.contains((x, from));
            assert(stacked.contains((x, from)));
            let k = choose|k: int| 0 <= k < cells.len() && cells[k] == (x, from);
            assert(cells[k].1 == from);
        }
    }
}

/// One piece fills at most four rows: where no row was full, four more
/// cells make at most four full rows.
pub proof fn lemma_piece_fills_at_most_four(settled: Set<(int, int)>, cells: Seq<(int, int)>)
    requires
        no_full_row(settled),
        cells.len() == 4,
    ensures
        0 <= full_rows(with_cells(settled, cells), 0) <= 4,
{
    lemma_full_rows_need_cells(settled, cells, 0);
}

/// Whether no empty row has settled cells above it.
pub open spec fn stacked_solid(cells: Set<(int, int)>) -> bool {
    forall|y: int| 0 <= y < FIELD_FLOOR && #[trigger] row_empty(cells, y) ==> !occupied_above(cells, y)
}

/// The cells of a board with the one full row `full` taken out and the
/// cells above it lowered by one row.
pub open spec fn without_row(cells: Set<(int, int)>, full: int) -> Set<(int, int)> {
    Set::new(
        |c: (int, int)|
            if c.1 <= full {
                cells.contains((c.0, c.1 - 1))
            } else {
                cells.contains(c)
            },
    )
}

proof fn lemma_drop_over_one_full_row(cells: Set<(int, int)>, full: int, low: int, y: int)
    requires
        all_in_field(cells),
        0 <= full < FIELD_FLOOR,
        row_full(cells, full),
        forall|r: int| 0 <= r < FIELD_FLOOR && r != full ==> !#[trigger] row_full(cells, r),
        stacked_solid(cells),
        0 <= low <= y < FIELD_FLOOR,
        !row_empty(cells, low),
    ensures
        drop_of(cells, y) == if y < full {
            1int
        } else {
            0int
        },
    decreases FIELD_FLOOR - y,
{
    if y < FIELD_FLOOR - 1 {
        lemma_drop_over_one_full_row(cells, full, low, y + 1);
        if row_empty(cells, y + 1) {
            assert(occupied_above(cells, y + 1)) by {
                assert(0 <= low < y + 1 && !row_empty(cells, low));
            }
        }
    }
}

/// Clearing a board on which exactly one row is full, and on which no
/// empty row has cells above it, removes that row, lowers every cell above
/// it by one row, leaves the cells below it, and counts one row.
pub proof fn lemma_single_full_row(cells: Set<(int, int)>, full: int)
    requires
        all_in_field(cells),
        0 <= full < FIELD_FLOOR,
        row_full(cells, full),
        forall|r: int| 0 <= r < FIELD_FLOOR && r != full ==> !#[trigger] row_full(cells, r),
        stacked_solid(cells),
    ensures
        cleared(cells) == without_row(cells, full),
        full_rows(cells, 0) == 1,
{
    let after = cleared(cells);
    let expected = without_row(cells, full);
    assert forall|c: (int, int)| after.contains(c) == expected.contains(c) by {
        if after.contains(c) {
            let r = choose|r: int|
                0 <= r < FIELD_FLOOR && #[trigger] cells.contains((c.0, r)) && !row_full(cells, r) && r
                    + drop_of(cells, r) == c.1;
            assert(in_field(c.0, r));
            lemma_drop_over_one_full_row(cells, full, r, r);
        }
        if expected.contains(c) {
            if c.1 <= full {
                assert(in_field(c.0, c.1 - 1));
                lemma_drop_over_one_full_row(cells, full, c.1 - 1, c.1 - 1);
                lemma_cleared_cell(cells, c.0, c.1 - 1);
            } else {
                assert(in_field(c.0, c.1));
                lemma_drop_over_one_full_row(cells, full, c.1, c.1);
                lemma_cleared_cell(cells, c.0, c.1);
            }
        }
    }
    assert(after =~= expected);
    lemma_count_one_full_row(cells, full, 0);
}

proof fn lemma_count_one_full_row(cells: Set<(int, int)>, full: int, from: int)
    requires
        0 <= full < FIELD_FLOOR,
        row_full(cells, full),
        forall|r: int| 0 <= r < FIELD_FLOOR && r != full ==> !#[trigger] row_full(cells, r),
        0 <= from <= FIELD_FLOOR,
    ensures
        full_rows(cells, from) == if from <= full {
            1int
        } else {
            0int
        },
    decreases FIELD_FLOOR - from,
{
    if from < FIELD_FLOOR {
        lemma_count_one_full_row(cells, full, from + 1);
    }
}

} // verus!
