//! The law that ties cells to chunk words: an active cell is always
//! marked in the activity word of its chunk, so that a stepper which goes
//! by the words never misses an active cell.

use crate::cell::{cell_fields, with_active};
use crate::chunk::{chunk_col_active, chunk_row_active, lemma_mark, lemma_span, lemma_zero_word};
use crate::grid::{
    lemma_index_injective, lemma_offsets_bound, lemma_put_active_cell, GridView,
};
use vstd::prelude::*;

verus! {

impl GridView {
    /// Whether the cell at `(x, y)` is inactive or marked, by row and by
    /// column, in the activity word of its chunk.
    pub open spec fn cell_covered(self, x: int, y: int) -> bool {
        cell_fields(self.cell(x, y)).active ==> chunk_row_active(self.chunk(x, y), y % 32)
            && chunk_col_active(self.chunk(x, y), x % 32)
    }

    /// Whether every active cell is marked in the activity word of its
    /// chunk.
    pub open spec fn covered(self) -> bool {
        forall|x: int, y: int| self.in_bounds(x, y) ==> #[trigger] self.cell_covered(x, y)
    }

    /// Whether `later` has the shape of this grid and covers every cell
    /// that this grid covers.
    pub open spec fn covers_more(self, later: GridView) -> bool {
        &&& later.same_shape(self)
        &&& forall|x: int, y: int|
            self.in_bounds(x, y) && self.cell_covered(x, y) ==> #[trigger] later.cell_covered(x, y)
    }
}

/// Covering more is transitive.
pub proof fn lemma_covers_more_trans(a: GridView, b: GridView, c: GridView)
    requires
        a.covers_more(b),
        b.covers_more(c),
    ensures
        a.covers_more(c),
{
}

/// A grid that covers more than a covered grid is covered.
pub proof fn lemma_covered_kept(grid: GridView, later: GridView)
    requires
        grid.covered(),
        grid.covers_more(later),
    ensures
        later.covered(),
{
}

/// A grid without an active cell is covered.
pub proof fn lemma_inactive_covered(grid: GridView)
    requires
        grid.wf(),
        forall|i: int| 0 <= i < grid.cells.len() ==> !cell_fields(#[trigger] grid.cells[i]).active,
    ensures
        grid.covered(),
{
    assert forall|x: int, y: int| grid.in_bounds(x, y) implies #[trigger] grid.cell_covered(
        x,
        y,
    ) by {
        lemma_offsets_bound(grid, x, y);
    }
}

/// Two positions of a grid share an activity word exactly when they lie
/// in the same chunk.
pub proof fn lemma_same_chunk(grid: GridView, x: int, y: int, a: int, b: int)
    requires
        grid.wf(),
        grid.in_bounds(x, y),
        grid.in_bounds(a, b),
    ensures
        grid.chunk_index(a, b) == grid.chunk_index(x, y) <==> a / 32 == x / 32 && b / 32 == y / 32,
{
    if grid.chunk_index(a, b) == grid.chunk_index(x, y) {
        lemma_index_injective(b / 32, a / 32, y / 32, x / 32, grid.chunk_height);
    }
}

/// Two positions of a grid share a cell word exactly when they are the
/// same position.
pub proof fn lemma_same_cell(grid: GridView, x: int, y: int, a: int, b: int)
    requires
        grid.wf(),
        grid.in_bounds(x, y),
        grid.in_bounds(a, b),
    ensures
        grid.cell_index(a, b) == grid.cell_index(x, y) <==> a == x && b == y,
{
    if grid.cell_index(a, b) == grid.cell_index(x, y) {
        lemma_index_injective(a, b, x, y, grid.width);
    }
}

/// Marking a cell's chunk covers the cell's position and uncovers
/// nothing.
pub proof fn lemma_mark_active_covers(grid: GridView, x: int, y: int)
    requires
        grid.wf(),
        grid.in_bounds(x, y),
    ensures
        grid.mark_active(x, y).wf(),
        grid.covers_more(grid.mark_active(x, y)),
        chunk_row_active(grid.mark_active(x, y).chunk(x, y), y % 32),
        chunk_col_active(grid.mark_active(x, y).chunk(x, y), x % 32),
        grid.mark_active(x, y).cells == grid.cells,
{
    let later = grid.mark_active(x, y);
    lemma_offsets_bound(grid, x, y);
    lemma_mark(grid.chunk(x, y), x % 32, y % 32);
    assert forall|a: int, b: int| grid.in_bounds(a, b) && grid.cell_covered(a, b) implies #[trigger]
        later.cell_covered(a, b) by {
        lemma_offsets_bound(grid, a, b);
        lemma_same_chunk(grid, x, y, a, b);
    }
}

/// Storing a cell as active covers its position and uncovers nothing.
pub proof fn lemma_put_active_covers(grid: GridView, x: int, y: int, cell: u32)
    requires
        grid.wf(),
        grid.in_bounds(x, y),
    ensures
        grid.put_active(x, y, cell).wf(),
        grid.covers_more(grid.put_active(x, y, cell)),
        grid.put_active(x, y, cell).cell_covered(x, y),
{
    let stored = grid.with_cell(x, y, with_active(cell, true));
    let later = stored.mark_active(x, y);
    lemma_offsets_bound(grid, x, y);
    lemma_mark_active_covers(stored, x, y);
    assert forall|a: int, b: int| grid.in_bounds(a, b) && grid.cell_covered(a, b) implies #[trigger]
        later.cell_covered(a, b) by {
        lemma_offsets_bound(grid, a, b);
        lemma_same_cell(grid, x, y, a, b);
        lemma_same_chunk(grid, x, y, a, b);
    }
}

/// Storing an inactive cell covers its position and uncovers nothing.
pub proof fn lemma_store_inactive_covers(grid: GridView, x: int, y: int, cell: u32)
    requires
        grid.wf(),
        grid.in_bounds(x, y),
        !cell_fields(cell).active,
    ensures
        grid.with_cell(x, y, cell).wf(),
        grid.covers_more(grid.with_cell(x, y, cell)),
        grid.with_cell(x, y, cell).cell_covered(x, y),
{
    let later = grid.with_cell(x, y, cell);
    lemma_offsets_bound(grid, x, y);
    assert forall|a: int, b: int| grid.in_bounds(a, b) && grid.cell_covered(a, b) implies #[trigger]
        later.cell_covered(a, b) by {
        lemma_offsets_bound(grid, a, b);
        lemma_same_cell(grid, x, y, a, b);
    }
}

/// Making a cell active uncovers nothing.
pub proof fn lemma_force_active_covers(grid: GridView, x: int, y: int)
    requires
        grid.wf(),
    ensures
        grid.force_active(x, y).wf(),
        grid.covers_more(grid.force_active(x, y)),
{
    if grid.in_bounds(x, y) {
        lemma_put_active_covers(grid, x, y, grid.cell(x, y));
    }
}

/// Waking the cells around a position uncovers nothing.
pub proof fn lemma_wake_neighbors_covers(grid: GridView, x: int, y: int)
    requires
        grid.wf(),
    ensures
        grid.wake_neighbors(x, y).wf(),
        grid.covers_more(grid.wake_neighbors(x, y)),
{
    let g1 = grid.force_active(x - 1, y);
    lemma_force_active_covers(grid, x - 1, y);
    let g2 = g1.force_active(x + 1, y);
    lemma_force_active_covers(g1, x + 1, y);
    lemma_covers_more_trans(grid, g1, g2);
    let g3 = g2.force_active(x - 1, y - 1);
    lemma_force_active_covers(g2, x - 1, y - 1);
    lemma_covers_more_trans(grid, g2, g3);
    let g4 = g3.force_active(x, y - 1);
    lemma_force_active_covers(g3, x, y - 1);
    lemma_covers_more_trans(grid, g3, g4);
    let g5 = g4.force_active(x + 1, y - 1);
    lemma_force_active_covers(g4, x + 1, y - 1);
    lemma_covers_more_trans(grid, g4, g5);
    let g6 = g5.force_active(x - 1, y + 1);
    lemma_force_active_covers(g5, x - 1, y + 1);
    lemma_covers_more_trans(grid, g5, g6);
    let g7 = g6.force_active(x, y + 1);
    lemma_force_active_covers(g6, x, y + 1);
    lemma_covers_more_trans(grid, g6, g7);
    let g8 = g7.force_active(x + 1, y + 1);
    lemma_force_active_covers(g7, x + 1, y + 1);
    lemma_covers_more_trans(grid, g7, g8);
}

/// Storing a changed cell covers its position and uncovers nothing.
pub proof fn lemma_put_changed_covers(grid: GridView, x: int, y: int, cell: u32)
    requires
        grid.wf(),
        grid.in_bounds(x, y),
    ensures
        grid.put_changed(x, y, cell).wf(),
        grid.covers_more(grid.put_changed(x, y, cell)),
        grid.put_changed(x, y, cell).cell_covered(x, y),
{
    let stored = grid.put_active(x, y, cell);
    lemma_put_active_covers(grid, x, y, cell);
    lemma_wake_neighbors_covers(stored, x, y);
    lemma_covers_more_trans(grid, stored, stored.wake_neighbors(x, y));
}

/// Whether the cell at `(a, b)` lies in the chunk whose first cell is
/// `(x0, y0)`, in a row and a column that `word` marks.
pub open spec fn pending(word: i64, x0: int, y0: int, a: int, b: int) -> bool {
    &&& x0 <= a < x0 + 32
    &&& y0 <= b < y0 + 32
    &&& chunk_row_active(word, b - y0)
    &&& chunk_col_active(word, a - x0)
}

/// Whether every cell is covered or still to be visited in the sweep of
/// the chunk at `(x0, y0)`, whose word was `word`. The sweep takes the
/// rows from the last to the first and each row from its first column to
/// its last; what is still to be visited are the marked cells in the rows
/// before `row`, and those in `row` itself from column `col` on.
pub open spec fn sweep_covers(
    grid: GridView,
    word: i64,
    x0: int,
    y0: int,
    row: int,
    col: int,
) -> bool {
    forall|a: int, b: int|
        grid.in_bounds(a, b) ==> #[trigger] grid.cell_covered(a, b) || (pending(word, x0, y0, a, b)
            && (b - y0 < row || (b - y0 == row && a - x0 >= col)))
}

/// Taking the word of a chunk leaves every cell covered or pending in the
/// sweep of that chunk.
pub proof fn lemma_take_chunk_pending(grid: GridView, x0: int, y0: int)
    requires
        grid.wf(),
        grid.covered(),
        grid.in_bounds(x0, y0),
        x0 % 32 == 0,
        y0 % 32 == 0,
    ensures
        grid.with_chunk(x0, y0, 0).wf(),
        sweep_covers(grid.with_chunk(x0, y0, 0), grid.chunk(x0, y0), x0, y0, 32, 0),
        grid.chunk(x0, y0) == 0 ==> grid.with_chunk(x0, y0, 0).covered(),
{
    let word = grid.chunk(x0, y0);
    let later = grid.with_chunk(x0, y0, 0);
    lemma_offsets_bound(grid, x0, y0);
    lemma_zero_word(0);
    assert forall|a: int, b: int| grid.in_bounds(a, b) implies #[trigger] later.cell_covered(a, b)
        || (pending(word, x0, y0, a, b) && (b - y0 < 32 || (b - y0 == 32 && a - x0 >= 0))) by {
        lemma_offsets_bound(grid, a, b);
        lemma_same_chunk(grid, x0, y0, a, b);
        assert(grid.cell_covered(a, b));
    }
    if word == 0 {
        assert forall|a: int, b: int| grid.in_bounds(a, b) implies #[trigger] later.cell_covered(
            a,
            b,
        ) by {
            lemma_offsets_bound(grid, a, b);
            lemma_same_chunk(grid, x0, y0, a, b);
            lemma_no_bit_in_zero(b % 32);
        }
    }
}

/// The zero word marks no row.
pub proof fn lemma_no_bit_in_zero(i: int)
    ensures
        !chunk_row_active(0, i),
        !chunk_col_active(0, i),
{
    lemma_zero_word(0);
    lemma_span(0u32);
}

/// Whether `(a, b)` lies more than `reach` cells from `(x, y)`, along a
/// row or along a column.
pub open spec fn beyond(x: int, y: int, a: int, b: int, reach: int) -> bool {
    a < x - reach || a > x + reach || b < y - reach || b > y + reach
}

/// Making a cell active changes no other cell.
pub proof fn lemma_force_active_elsewhere(grid: GridView, x: int, y: int, a: int, b: int)
    requires
        grid.wf(),
        grid.in_bounds(a, b),
        a != x || b != y,
    ensures
        grid.force_active(x, y).cell(a, b) == grid.cell(a, b),
{
    if grid.in_bounds(x, y) {
        lemma_put_active_cell(grid, x, y, grid.cell(x, y), a, b);
    }
}

/// Waking the cells around a position changes no cell that is more than
/// one cell away from it.
pub proof fn lemma_wake_neighbors_elsewhere(grid: GridView, x: int, y: int, a: int, b: int)
    requires
        grid.wf(),
        grid.in_bounds(a, b),
        beyond(x, y, a, b, 1),
    ensures
        grid.wake_neighbors(x, y).cell(a, b) == grid.cell(a, b),
{
    let g1 = grid.force_active(x - 1, y);
    lemma_force_active_covers(grid, x - 1, y);
    lemma_force_active_elsewhere(grid, x - 1, y, a, b);
    let g2 = g1.force_active(x + 1, y);
    lemma_force_active_covers(g1, x + 1, y);
    lemma_force_active_elsewhere(g1, x + 1, y, a, b);
    let g3 = g2.force_active(x - 1, y - 1);
    lemma_force_active_covers(g2, x - 1, y - 1);
    lemma_force_active_elsewhere(g2, x - 1, y - 1, a, b);
    let g4 = g3.force_active(x, y - 1);
    lemma_force_active_covers(g3, x, y - 1);
    lemma_force_active_elsewhere(g3, x, y - 1, a, b);
    let g5 = g4.force_active(x + 1, y - 1);
    lemma_force_active_covers(g4, x + 1, y - 1);
    lemma_force_active_elsewhere(g4, x + 1, y - 1, a, b);
    let g6 = g5.force_active(x - 1, y + 1);
    lemma_force_active_covers(g5, x - 1, y + 1);
    lemma_force_active_elsewhere(g5, x - 1, y + 1, a, b);
    let g7 = g6.force_active(x, y + 1);
    lemma_force_active_covers(g6, x, y + 1);
    lemma_force_active_elsewhere(g6, x, y + 1, a, b);
    lemma_force_active_covers(g7, x + 1, y + 1);
    lemma_force_active_elsewhere(g7, x + 1, y + 1, a, b);
}

/// Waking the cells around a position leaves the cell at the position
/// itself as it is.
pub proof fn lemma_wake_neighbors_center(grid: GridView, x: int, y: int)
    requires
        grid.wf(),
        grid.in_bounds(x, y),
    ensures
        grid.wake_neighbors(x, y).cell(x, y) == grid.cell(x, y),
{
    let g1 = grid.force_active(x - 1, y);
    lemma_force_active_covers(grid, x - 1, y);
    lemma_force_active_elsewhere(grid, x - 1, y, x, y);
    let g2 = g1.force_active(x + 1, y);
    lemma_force_active_covers(g1, x + 1, y);
    lemma_force_active_elsewhere(g1, x + 1, y, x, y);
    let g3 = g2.force_active(x - 1, y - 1);
    lemma_force_active_covers(g2, x - 1, y - 1);
    lemma_force_active_elsewhere(g2, x - 1, y - 1, x, y);
    let g4 = g3.force_active(x, y - 1);
    lemma_force_active_covers(g3, x, y - 1);
    lemma_force_active_elsewhere(g3, x, y - 1, x, y);
    let g5 = g4.force_active(x + 1, y - 1);
    lemma_force_active_covers(g4, x + 1, y - 1);
    lemma_force_active_elsewhere(g4, x + 1, y - 1, x, y);
    let g6 = g5.force_active(x - 1, y + 1);
    lemma_force_active_covers(g5, x - 1, y + 1);
    lemma_force_active_elsewhere(g5, x - 1, y + 1, x, y);
    let g7 = g6.force_active(x, y + 1);
    lemma_force_active_covers(g6, x, y + 1);
    lemma_force_active_elsewhere(g6, x, y + 1, x, y);
    lemma_force_active_covers(g7, x + 1, y + 1);
    lemma_force_active_elsewhere(g7, x + 1, y + 1, x, y);
}

/// A cell that was stored as changed reads back as it was stored, with
/// its active flag set.
pub proof fn lemma_put_changed_cell(grid: GridView, x: int, y: int, cell: u32)
    requires
        grid.wf(),
        grid.in_bounds(x, y),
    ensures
        grid.put_changed(x, y, cell).cell(x, y) == with_active(cell, true),
{
    lemma_put_active_cell(grid, x, y, cell, x, y);
    lemma_put_active_covers(grid, x, y, cell);
    lemma_wake_neighbors_center(grid.put_active(x, y, cell), x, y);
}

/// Storing a changed cell changes no cell that is more than one cell away
/// from it.
pub proof fn lemma_put_changed_elsewhere(
    grid: GridView,
    x: int,
    y: int,
    cell: u32,
    a: int,
    b: int,
)
    requires
        grid.wf(),
        grid.in_bounds(x, y),
        grid.in_bounds(a, b),
        beyond(x, y, a, b, 1),
    ensures
        grid.put_changed(x, y, cell).cell(a, b) == grid.cell(a, b),
{
    lemma_put_active_cell(grid, x, y, cell, a, b);
    lemma_put_active_covers(grid, x, y, cell);
    lemma_wake_neighbors_elsewhere(grid.put_active(x, y, cell), x, y, a, b);
}

} // verus!
