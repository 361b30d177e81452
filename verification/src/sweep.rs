//! The sweep of a generation: strip by strip, chunk by chunk, row by row,
//! skipping whatever the activity words show to be at rest.

use crate::activity::{lemma_take_chunk_pending, pending, sweep_covers};
use crate::chunk::{
    chunk_active_rect, chunk_col_active, chunk_is_row_inactive, chunk_row_active,
    spec_active_rect,
};
use crate::grid::{lemma_offsets_bound, Grid, GridView};
use crate::material::{valid_table, Material};
use crate::rng::{rng_from_seed, SimRng};
use crate::visit::{update_cell, visit_relates};
use vstd::prelude::*;

verus! {

/// Whether `end` is a grid that visiting the cells of row `y` from
/// column `first` to column `last`, in this order, can make of `start`.
pub open spec fn row_swept(
    start: GridView,
    end: GridView,
    materials: Seq<Material>,
    generation: bool,
    y: int,
    first: int,
    last: int,
) -> bool
    decreases last - first + 1,
{
    if last < first {
        end == start
    } else {
        exists|mid: GridView|
            row_swept(start, mid, materials, generation, y, first, last - 1)
                && #[trigger] visit_relates(mid, end, materials, generation, last, y)
    }
}

/// Whether `after` is a grid that the turn of local row `row` can make of
/// `before`, in the sweep of the chunk whose first cell is `(x0, y0)` and
/// whose word was `word`. A row that the word does not mark is skipped; a
/// marked row is swept over the columns of the word's active rectangle.
pub open spec fn row_turn(
    before: GridView,
    after: GridView,
    materials: Seq<Material>,
    generation: bool,
    word: i64,
    x0: int,
    y0: int,
    row: int,
) -> bool {
    if chunk_row_active(word, row) {
        row_swept(
            before,
            after,
            materials,
            generation,
            y0 + row,
            x0 + spec_active_rect(word).1.start,
            x0 + spec_active_rect(word).1.end - 1,
        )
    } else {
        after == before
    }
}

/// Whether `end` is a grid that the turns of the local rows `first` down
/// to `last`, in this order, can make of `start`.
pub open spec fn rows_swept(
    start: GridView,
    end: GridView,
    materials: Seq<Material>,
    generation: bool,
    word: i64,
    x0: int,
    y0: int,
    first: int,
    last: int,
) -> bool
    decreases first - last + 1,
{
    if first < last {
        end == start
    } else {
        exists|mid: GridView|
            rows_swept(start, mid, materials, generation, word, x0, y0, first, last + 1)
                && #[trigger] row_turn(mid, end, materials, generation, word, x0, y0, last)
    }
}

/// Whether `after` is a grid that the turn of chunk `chunk_y` of strip
/// `column` can make of `before`: its word is read and zeroed, and unless
/// the word was zero, the rows of its active rectangle are swept from the
/// last to the first.
pub open spec fn chunk_swept(
    before: GridView,
    after: GridView,
    materials: Seq<Material>,
    generation: bool,
    column: int,
    chunk_y: int,
) -> bool {
    let word = before.chunk(column * 32, chunk_y * 32);
    let taken = before.with_chunk(column * 32, chunk_y * 32, 0);
    if word == 0 {
        after == taken
    } else {
        rows_swept(
            taken,
            after,
            materials,
            generation,
            word,
            column * 32,
            chunk_y * 32,
            spec_active_rect(word).0.end - 1,
            spec_active_rect(word).0.start as int,
        )
    }
}

/// Whether `end` is a grid that the turns of the chunks `first` down to
/// `last` of strip `column`, in this order, can make of `start`.
pub open spec fn chunks_swept(
    start: GridView,
    end: GridView,
    materials: Seq<Material>,
    generation: bool,
    column: int,
    first: int,
    last: int,
) -> bool
    decreases first - last + 1,
{
    if first < last {
        end == start
    } else {
        exists|mid: GridView|
            chunks_swept(start, mid, materials, generation, column, first, last + 1)
                && #[trigger] chunk_swept(mid, end, materials, generation, column, last)
    }
}

/// Whether `after` is a grid that the sweep of strip `column`, from its
/// last chunk to its first, can make of `before`.
pub open spec fn strip_swept(
    before: GridView,
    after: GridView,
    materials: Seq<Material>,
    generation: bool,
    column: int,
) -> bool {
    chunks_swept(before, after, materials, generation, column, before.chunk_height - 1, 0)
}

/// Whether `end` is a grid that the sweeps of the strips `first` to
/// `last`, in this order, can make of `start`.
pub open spec fn strips_swept(
    start: GridView,
    end: GridView,
    materials: Seq<Material>,
    generation: bool,
    first: int,
    last: int,
) -> bool
    decreases last - first + 1,
{
    if last < first {
        end == start
    } else {
        exists|mid: GridView|
            strips_swept(start, mid, materials, generation, first, last - 1)
                && #[trigger] strip_swept(mid, end, materials, generation, last)
    }
}

/// A swept stretch of a row and the visit of the next cell make a swept
/// stretch that is one cell longer.
proof fn lemma_row_swept_next(
    start: GridView,
    mid: GridView,
    end: GridView,
    materials: Seq<Material>,
    generation: bool,
    y: int,
    first: int,
    last: int,
)
    requires
        first <= last,
        row_swept(start, mid, materials, generation, y, first, last - 1),
        visit_relates(mid, end, materials, generation, last, y),
    ensures
        row_swept(start, end, materials, generation, y, first, last),
{
}

/// Swept rows of a chunk and the turn of the row below them make swept
/// rows down to that row.
proof fn lemma_rows_swept_next(
    start: GridView,
    mid: GridView,
    end: GridView,
    materials: Seq<Material>,
    generation: bool,
    word: i64,
    x0: int,
    y0: int,
    first: int,
    last: int,
)
    requires
        last <= first,
        rows_swept(start, mid, materials, generation, word, x0, y0, first, last + 1),
        row_turn(mid, end, materials, generation, word, x0, y0, last),
    ensures
        rows_swept(start, end, materials, generation, word, x0, y0, first, last),
{
}

/// Swept chunks of a strip and the turn of the chunk below them make
/// swept chunks down to that chunk.
proof fn lemma_chunks_swept_next(
    start: GridView,
    mid: GridView,
    end: GridView,
    materials: Seq<Material>,
    generation: bool,
    column: int,
    first: int,
    last: int,
)
    requires
        last <= first,
        chunks_swept(start, mid, materials, generation, column, first, last + 1),
        chunk_swept(mid, end, materials, generation, column, last),
    ensures
        chunks_swept(start, end, materials, generation, column, first, last),
{
}

/// Swept strips and the sweep of the next strip make one more swept
/// strip.
pub proof fn lemma_strips_swept_next(
    start: GridView,
    mid: GridView,
    end: GridView,
    materials: Seq<Material>,
    generation: bool,
    first: int,
    last: int,
)
    requires
        first <= last,
        strips_swept(start, mid, materials, generation, first, last - 1),
        strip_swept(mid, end, materials, generation, last),
    ensures
        strips_swept(start, end, materials, generation, first, last),
{
}

/// Sweeps the vertical strip of chunks `column_idx`, from its last chunk
/// to its first.
///
/// The activity word of each chunk is read and zeroed before the chunk is
/// swept, so that the cells which stay or become active build the word of
/// the next generation. A chunk whose word is zero is skipped. In any
/// other chunk the rows of the active rectangle are swept from the last
/// to the first, and a row that the word does not mark is skipped; in the
/// rows that remain, the cells within the columns of the rectangle are
/// visited from the first to the last. The strip's generator is seeded
/// with `column_idx`.
///
/// No active cell is lost on the way: where every active cell was marked
/// in its chunk before the sweep, every active cell is marked after it.
pub fn step_column(
    grid: &mut Grid,
    materials: &Vec<Material>,
    generation: bool,
    column_idx: usize,
)
    requires
        old(grid).wf(),
        old(grid)@.covered(),
        column_idx < old(grid)@.chunk_width,
        valid_table(materials@),
        old(grid)@.materials_below(materials@.len() as int),
    ensures
        final(grid).wf(),
        final(grid)@.covered(),
        final(grid)@.same_shape(old(grid)@),
        final(grid)@.materials_below(materials@.len() as int),
        strip_swept(old(grid)@, final(grid)@, materials@, generation, column_idx as int),
{
    let mut rng = rng_from_seed(column_idx as u64);
    let x0: i64 = column_idx as i64 * 32;
    let mut cy: i64 = grid.chunk_height();
    while cy > 0
        invariant
            grid.wf(),
            grid@.covered(),
            grid@.same_shape(old(grid)@),
            grid@.materials_below(materials@.len() as int),
            valid_table(materials@),
            0 <= cy <= grid@.chunk_height,
            x0 == column_idx * 32,
            column_idx < grid@.chunk_width,
            chunks_swept(
                old(grid)@,
                grid@,
                materials@,
                generation,
                column_idx as int,
                grid@.chunk_height - 1,
                cy as int,
            ),
        decreases cy,
    {
        cy = cy - 1;
        let y0: i64 = cy * 32;
        let ghost before = grid@;
        proof {
            lemma_take_chunk_pending(grid@, x0 as int, y0 as int);
        }
        let word = grid.take_chunk(x0, y0);
        if word != 0 {
            sweep_chunk(grid, materials, generation, x0, y0, word, &mut rng);
        }
        proof {
            lemma_chunks_swept_next(
                old(grid)@,
                before,
                grid@,
                materials@,
                generation,
                column_idx as int,
                grid@.chunk_height - 1,
                cy as int,
            );
        }
    }
}

/// Sweeps the chunk whose first cell is `(x0, y0)` and whose activity
/// word was `word`: every cell in a marked row of the active rectangle
/// and within the rectangle's columns is visited.
fn sweep_chunk(
    grid: &mut Grid,
    materials: &Vec<Material>,
    generation: bool,
    x0: i64,
    y0: i64,
    word: i64,
    rng: &mut SimRng,
)
    requires
        old(grid).wf(),
        old(grid)@.in_bounds(x0 as int, y0 as int),
        x0 % 32 == 0,
        y0 % 32 == 0,
        valid_table(materials@),
        old(grid)@.materials_below(materials@.len() as int),
        sweep_covers(old(grid)@, word, x0 as int, y0 as int, 32, 0),
    ensures
        final(grid).wf(),
        final(grid)@.covered(),
        final(grid)@.same_shape(old(grid)@),
        final(grid)@.materials_below(materials@.len() as int),
        rows_swept(
            old(grid)@,
            final(grid)@,
            materials@,
            generation,
            word,
            x0 as int,
            y0 as int,
            spec_active_rect(word).0.end - 1,
            spec_active_rect(word).0.start as int,
        ),
{
    let (rows, columns) = chunk_active_rect(word);
    let mut local_y: i64 = rows.end;
    while local_y > rows.start
        invariant
            grid.wf(),
            grid@.same_shape(old(grid)@),
            grid@.materials_below(materials@.len() as int),
            valid_table(materials@),
            grid@.in_bounds(x0 as int, y0 as int),
            x0 % 32 == 0,
            y0 % 32 == 0,
            0 <= rows.start <= 32,
            0 <= local_y <= 32,
            0 <= columns.start <= 32,
            0 <= columns.end <= 32,
            forall|y: int| chunk_row_active(word, y) ==> rows.start <= y < rows.end,
            forall|x: int| chunk_col_active(word, x) ==> columns.start <= x < columns.end,
            sweep_covers(grid@, word, x0 as int, y0 as int, local_y as int, 32),
            (rows, columns) == spec_active_rect(word),
            local_y <= rows.end,
            rows.start <= local_y || rows.end <= rows.start,
            rows_swept(
                old(grid)@,
                grid@,
                materials@,
                generation,
                word,
                x0 as int,
                y0 as int,
                rows.end - 1,
                local_y as int,
            ),
        decreases local_y,
    {
        local_y = local_y - 1;
        let ghost row_start = grid@;
        if !chunk_is_row_inactive(word, local_y) {
            let y = y0 + local_y;
            let mut local_x: i64 = columns.start;
            while local_x < columns.end
                invariant
                    grid.wf(),
                    grid@.same_shape(old(grid)@),
                    grid@.materials_below(materials@.len() as int),
                    valid_table(materials@),
                    grid@.in_bounds(x0 as int, y0 as int),
                    x0 % 32 == 0,
                    y0 % 32 == 0,
                    y == y0 + local_y,
                    0 <= local_y < 32,
                    0 <= local_x <= 32,
                    0 <= columns.end <= 32,
                    forall|x: int| chunk_col_active(word, x) ==> columns.start <= x < columns.end,
                    sweep_covers(grid@, word, x0 as int, y0 as int, local_y as int, local_x as int),
                    columns.start <= local_x,
                    local_x <= columns.end || columns.end <= columns.start,
                    row_swept(
                        row_start,
                        grid@,
                        materials@,
                        generation,
                        y as int,
                        x0 + columns.start,
                        x0 + local_x - 1,
                    ),
                decreases columns.end - local_x,
            {
                let ghost before = grid@;
                update_cell(grid, materials, generation, x0 + local_x, y, rng);
                proof {
                    lemma_row_swept_next(
                        row_start,
                        before,
                        grid@,
                        materials@,
                        generation,
                        y as int,
                        x0 + columns.start,
                        x0 + local_x,
                    );
                }
                local_x = local_x + 1;
            }
        }
        proof {
            lemma_rows_swept_next(
                old(grid)@,
                row_start,
                grid@,
                materials@,
                generation,
                word,
                x0 as int,
                y0 as int,
                rows.end - 1,
                local_y as int,
            );
        }
    }
}

/// Whether every activity word of the grid is zero.
pub open spec fn at_rest(grid: GridView) -> bool {
    forall|i: int| 0 <= i < grid.chunks.len() ==> #[trigger] grid.chunks[i] == 0
}

/// The turns of the chunks of a strip change nothing in a grid at rest.
proof fn lemma_chunks_at_rest(
    start: GridView,
    end: GridView,
    materials: Seq<Material>,
    generation: bool,
    column: int,
    first: int,
    last: int,
)
    requires
        start.wf(),
        at_rest(start),
        0 <= column < start.chunk_width,
        0 <= last,
        first < start.chunk_height,
        chunks_swept(start, end, materials, generation, column, first, last),
    ensures
        end == start,
    decreases first - last + 1,
{
    if first >= last {
        let mid = choose|mid: GridView|
            chunks_swept(start, mid, materials, generation, column, first, last + 1)
                && #[trigger] chunk_swept(mid, end, materials, generation, column, last);
        lemma_chunks_at_rest(start, mid, materials, generation, column, first, last + 1);
        lemma_offsets_bound(start, column * 32, last * 32);
        assert(start.with_chunk(column * 32, last * 32, 0).chunks =~= start.chunks);
    }
}

/// A generation changes nothing in a grid at rest: where every activity
/// word is zero, the sweeps of any strips leave the grid as it is.
pub proof fn lemma_rest_stays(
    start: GridView,
    end: GridView,
    materials: Seq<Material>,
    generation: bool,
    first: int,
    last: int,
)
    requires
        start.wf(),
        at_rest(start),
        0 <= first,
        last < start.chunk_width,
        strips_swept(start, end, materials, generation, first, last),
    ensures
        end == start,
    decreases last - first + 1,
{
    if last >= first {
        let mid = choose|mid: GridView|
            strips_swept(start, mid, materials, generation, first, last - 1)
                && #[trigger] strip_swept(mid, end, materials, generation, last);
        lemma_rest_stays(start, mid, materials, generation, first, last - 1);
        lemma_chunks_at_rest(
            start,
            end,
            materials,
            generation,
            last,
            start.chunk_height - 1,
            0,
        );
    }
}

} // verus!
