//! The activity word of one 32×32 block of cells.
//!
//! The lower 32 bits hold one bit per local row with an active cell, the
//! upper 32 bits one bit per local column with an active cell. A word of
//! zero means that nothing in the block is active.

use crate::grid::Grid;
use std::ops::Range;
use vstd::prelude::*;
use vstd::std_specs::bits::{
    axiom_u32_leading_zeros, axiom_u32_trailing_ones, axiom_u32_trailing_zeros,
    u32_leading_zeros, u32_trailing_zeros,
};

verus! {

/// Bit `i` of a 32-bit half.
pub open spec fn bit_set(bits: u32, i: int) -> bool {
    0 <= i < 32 && (bits >> (i as u32)) & 1u32 == 1u32
}

/// The row half of a chunk word.
pub open spec fn row_bits(chunk: i64) -> u32 {
    chunk as u32
}

/// The column half of a chunk word.
pub open spec fn col_bits(chunk: i64) -> u32 {
    (chunk >> 32u32) as u32
}

/// Whether local row `local_y` is marked in the word.
pub open spec fn chunk_row_active(chunk: i64, local_y: int) -> bool {
    bit_set(row_bits(chunk), local_y)
}

/// Whether local column `local_x` is marked in the word.
pub open spec fn chunk_col_active(chunk: i64, local_x: int) -> bool {
    bit_set(col_bits(chunk), local_x)
}

/// The word after the cell at local `(local_x, local_y)` was marked.
pub open spec fn chunk_mark(chunk: i64, local_x: int, local_y: int) -> i64 {
    chunk | ((1i64 << ((local_x + 32) as u32)) | (1i64 << (local_y as u32)))
}

/// The word after every cell of `cells`, each a local `(x, y)`, was marked
/// in turn.
pub open spec fn chunk_mark_all(chunk: i64, cells: Seq<(int, int)>) -> i64
    decreases cells.len(),
{
    if cells.len() == 0 {
        chunk
    } else {
        chunk_mark(chunk_mark_all(chunk, cells.drop_last()), cells.last().0, cells.last().1)
    }
}

/// Index of the lowest set bit, 32 where there is none.
pub open spec fn span_start(bits: u32) -> int {
    u32_trailing_zeros(bits) as int
}

/// One past the index of the highest set bit, 0 where there is none.
pub open spec fn span_end(bits: u32) -> int {
    32 - u32_leading_zeros(bits)
}

/// The bounding rectangle of the marked rows and columns, as
/// `(y_start..y_end, x_start..x_end)`.
pub open spec fn spec_active_rect(chunk: i64) -> (Range<i64>, Range<i64>) {
    if chunk == 0 {
        (Range { start: 0, end: 0 }, Range { start: 0, end: 0 })
    } else {
        (
            Range {
                start: span_start(row_bits(chunk)) as i64,
                end: span_end(row_bits(chunk)) as i64,
            },
            Range {
                start: span_start(col_bits(chunk)) as i64,
                end: span_end(col_bits(chunk)) as i64,
            },
        )
    }
}

/// `span_start` and `span_end` bound the set bits, and tightly: every set
/// bit lies in `span_start..span_end`, and where a bit is set, both the
/// first and the last position of the span hold one.
pub proof fn lemma_span(bits: u32)
    ensures
        0 <= span_start(bits) <= 32,
        0 <= span_end(bits) <= 32,
        bits == 0 <==> span_start(bits) == 32,
        bits == 0 <==> span_end(bits) == 0,
        bits != 0 ==> bit_set(bits, span_start(bits)) && bit_set(bits, span_end(bits) - 1),
        forall|i: int| bit_set(bits, i) ==> span_start(bits) <= i < span_end(bits),
{
    axiom_u32_trailing_zeros(bits);
    axiom_u32_leading_zeros(bits);
    let tz = u32_trailing_zeros(bits);
    let lz = u32_leading_zeros(bits);
    if bits != 0 {
        let top: u32 = (31 - lz) as u32;
        assert((bits >> top) & 1u32 != 0u32 ==> (bits >> top) & 1u32 == 1u32) by (bit_vector);
    }
    assert forall|i: int| bit_set(bits, i) implies span_start(bits) <= i < span_end(bits) by {
        let j: u32 = i as u32;
        if j < tz {
            assert((bits >> j) & 1u32 == 0u32);
        }
        if 32 - lz <= j {
            assert((bits >> j) & 1u32 == 0u32);
        }
    }
}

/// A word is zero exactly when no row and no column is marked.
pub proof fn lemma_zero_word(chunk: i64)
    ensures
        chunk == 0 <==> row_bits(chunk) == 0 && col_bits(chunk) == 0,
        row_bits(0) == 0,
        col_bits(0) == 0,
{
    assert(chunk == 0 <==> (chunk as u32 == 0 && (chunk >> 32u32) as u32 == 0)) by (bit_vector);
    assert(0i64 as u32 == 0 && (0i64 >> 32u32) as u32 == 0) by (bit_vector);
}

/// Marking a cell adds its row and its column, and nothing else.
pub proof fn lemma_mark(chunk: i64, local_x: int, local_y: int)
    requires
        0 <= local_x < 32,
        0 <= local_y < 32,
    ensures
        forall|r: int|
            #[trigger] chunk_row_active(chunk_mark(chunk, local_x, local_y), r) <==> (
            chunk_row_active(chunk, r) || r == local_y),
        forall|c: int|
            #[trigger] chunk_col_active(chunk_mark(chunk, local_x, local_y), c) <==> (
            chunk_col_active(chunk, c) || c == local_x),
        chunk_mark(chunk, local_x, local_y) != 0,
{
    let x: u32 = local_x as u32;
    let y: u32 = local_y as u32;
    let xs: u32 = (local_x + 32) as u32;
    let m = chunk_mark(chunk, local_x, local_y);
    assert(m as u32 == (chunk as u32) | (1u32 << y) && (m >> 32u32) as u32 == ((chunk >> 32u32)
        as u32) | (1u32 << x) && m != 0) by (bit_vector)
        requires
            m == chunk | ((1i64 << xs) | (1i64 << y)),
            xs == x + 32,
            x < 32,
            y < 32,
    ;
    assert forall|r: int|
        chunk_row_active(m, r) <==> (chunk_row_active(chunk, r) || r == local_y) by {
        if 0 <= r < 32 {
            lemma_bit_or(row_bits(chunk), y, r as u32);
        }
    }
    assert forall|c: int|
        chunk_col_active(m, c) <==> (chunk_col_active(chunk, c) || c == local_x) by {
        if 0 <= c < 32 {
            lemma_bit_or(col_bits(chunk), x, c as u32);
        }
    }
}

/// Setting bit `k` sets that bit, and no other.
proof fn lemma_bit_or(bits: u32, k: u32, i: u32)
    requires
        k < 32,
        i < 32,
    ensures
        bit_set(bits | (1u32 << k), i as int) <==> (bit_set(bits, i as int) || i == k),
{
    assert((((bits | (1u32 << k)) >> i) & 1u32 == 1u32) <==> (((bits >> i) & 1u32 == 1u32) || i
        == k)) by (bit_vector)
        requires
            k < 32,
            i < 32,
    ;
}

/// Whether one of `cells` lies in row `row`.
pub open spec fn marks_row(cells: Seq<(int, int)>, row: int) -> bool {
    exists|k: int| 0 <= k < cells.len() && (#[trigger] cells[k]).1 == row
}

/// Whether one of `cells` lies in column `col`.
pub open spec fn marks_col(cells: Seq<(int, int)>, col: int) -> bool {
    exists|k: int| 0 <= k < cells.len() && (#[trigger] cells[k]).0 == col
}

/// Whether every cell of `cells` is a local coordinate of a block.
pub open spec fn local_cells(cells: Seq<(int, int)>) -> bool {
    forall|k: int| 0 <= k < cells.len() ==> 0 <= (#[trigger] cells[k]).0 < 32 && 0 <= cells[k].1 < 32
}

/// A run of cells lies in a row or column exactly when the run without
/// its last cell does, or the last cell itself.
proof fn lemma_marks_step(cells: Seq<(int, int)>, i: int)
    requires
        cells.len() > 0,
    ensures
        marks_row(cells, i) <==> (marks_row(cells.drop_last(), i) || cells.last().1 == i),
        marks_col(cells, i) <==> (marks_col(cells.drop_last(), i) || cells.last().0 == i),
{
    let init = cells.drop_last();
    let n = cells.len() - 1;
    if marks_row(cells, i) {
        let k = choose|k: int| 0 <= k < cells.len() && (#[trigger] cells[k]).1 == i;
        if k < n {
            assert(init[k].1 == i);
        }
    }
    if marks_row(init, i) {
        let k = choose|k: int| 0 <= k < init.len() && (#[trigger] init[k]).1 == i;
        assert(cells[k].1 == i);
    }
    if cells.last().1 == i {
        assert(cells[n].1 == i);
    }
    if marks_col(cells, i) {
        let k = choose|k: int| 0 <= k < cells.len() && (#[trigger] cells[k]).0 == i;
        if k < n {
            assert(init[k].0 == i);
        }
    }
    if marks_col(init, i) {
        let k = choose|k: int| 0 <= k < init.len() && (#[trigger] init[k]).0 == i;
        assert(cells[k].0 == i);
    }
    if cells.last().0 == i {
        assert(cells[n].0 == i);
    }
}

/// A row or column is marked after a run of marks exactly when it was
/// marked before or one of the marked cells lies in it.
pub proof fn lemma_mark_all(chunk: i64, cells: Seq<(int, int)>)
    requires
        local_cells(cells),
    ensures
        forall|r: int|
            #[trigger] chunk_row_active(chunk_mark_all(chunk, cells), r) <==> (chunk_row_active(
                chunk,
                r,
            ) || marks_row(cells, r)),
        forall|c: int|
            #[trigger] chunk_col_active(chunk_mark_all(chunk, cells), c) <==> (chunk_col_active(
                chunk,
                c,
            ) || marks_col(cells, c)),
    decreases cells.len(),
{
    if cells.len() > 0 {
        let init = cells.drop_last();
        let last = cells.last();
        assert(local_cells(init)) by {
            assert forall|k: int| 0 <= k < init.len() implies 0 <= (#[trigger] init[k]).0 < 32 && 0
                <= init[k].1 < 32 by {
                assert(init[k] == cells[k]);
            }
        }
        assert(0 <= last.0 < 32 && 0 <= last.1 < 32) by {
            assert(last == cells[cells.len() - 1]);
        }
        lemma_mark_all(chunk, init);
        let before = chunk_mark_all(chunk, init);
        let after = chunk_mark_all(chunk, cells);
        assert(after == chunk_mark(before, last.0, last.1));
        lemma_mark(before, last.0, last.1);
        assert forall|i: int| #[trigger]
            chunk_row_active(after, i) <==> (chunk_row_active(chunk, i) || marks_row(cells, i)) by {
            lemma_marks_step(cells, i);
            assert(chunk_row_active(before, i) <==> (chunk_row_active(chunk, i) || marks_row(
                init,
                i,
            )));
        }
        assert forall|i: int| #[trigger]
            chunk_col_active(after, i) <==> (chunk_col_active(chunk, i) || marks_col(cells, i)) by {
            lemma_marks_step(cells, i);
            assert(chunk_col_active(before, i) <==> (chunk_col_active(chunk, i) || marks_col(
                init,
                i,
            )));
        }
    } else {
        assert forall|i: int| !marks_row(cells, i) && !marks_col(cells, i) by {}
    }
}

/// The word with the cell at local `(local_x, local_y)` marked: bit
/// `local_x + 32` and bit `local_y` are set, by one bitwise OR.
pub fn chunk_marked(chunk: i64, local_x: i64, local_y: i64) -> (marked: i64)
    requires
        0 <= local_x < 32,
        0 <= local_y < 32,
    ensures
        marked == chunk_mark(chunk, local_x as int, local_y as int),
{
    let col: u32 = (local_x + 32) as u32;
    let row: u32 = local_y as u32;
    chunk | ((1i64 << col) | (1i64 << row))
}

/// Marks the cell at `(x, y)` of the grid as active in the activity word
/// of its chunk.
pub fn chunk_set_active(grid: &mut Grid, x: i64, y: i64)
    requires
        old(grid).wf(),
        old(grid)@.in_bounds(x as int, y as int),
    ensures
        final(grid)@ == old(grid)@.mark_active(x as int, y as int),
        final(grid).wf(),
{
    grid.mark_active(x, y);
}

/// Whether no cell of local row `local_y` is marked. A row outside the
/// block holds nothing and counts as inactive.
pub fn chunk_is_row_inactive(chunk: i64, local_y: i64) -> (inactive: bool)
    ensures
        inactive == !chunk_row_active(chunk, local_y as int),
{
    if local_y < 0 || local_y >= 32 {
        return true;
    }
    let row: u32 = local_y as u32;
    assert((chunk & (1i64 << row) == 0) <==> !(((chunk as u32) >> row) & 1u32 == 1u32))
        by (bit_vector)
        requires
            row < 32,
    ;
    chunk & (1i64 << row) == 0
}

/// The active rows and columns, as `(y_start..y_end, x_start..x_end)`: the
/// smallest rectangle that holds every marked row and column. It may hold
/// unmarked rows too. A zero word gives `(0..0, 0..0)`.
pub fn chunk_active_rect(chunk: i64) -> (rect: (Range<i64>, Range<i64>))
    ensures
        rect == spec_active_rect(chunk),
        0 <= rect.0.start <= 32 && 0 <= rect.0.end <= 32,
        0 <= rect.1.start <= 32 && 0 <= rect.1.end <= 32,
        forall|y: int| chunk_row_active(chunk, y) ==> rect.0.start <= y < rect.0.end,
        forall|x: int| chunk_col_active(chunk, x) ==> rect.1.start <= x < rect.1.end,
{
    if chunk == 0 {
        proof {
            lemma_zero_word(chunk);
            lemma_span(0u32);
        }
        return (0..0, 0..0);
    }
    let cols: u32 = (chunk >> 32u32) as u32;
    let rows: u32 = chunk as u32;
    proof {
        lemma_span(rows);
        lemma_span(cols);
    }
    let col_start: i64 = cols.trailing_zeros() as i64;
    let col_end: i64 = 32 - cols.leading_zeros() as i64;
    let row_start: i64 = rows.trailing_zeros() as i64;
    let row_end: i64 = 32 - rows.leading_zeros() as i64;
    (row_start..row_end, col_start..col_end)
}

/// Marking one cell of an empty block gives the rectangle of that cell
/// alone, and an empty block gives the empty rectangle at the origin.
pub proof fn lemma_single_cell_rect(local_x: int, local_y: int)
    requires
        0 <= local_x < 32,
        0 <= local_y < 32,
    ensures
        spec_active_rect(chunk_mark(0, local_x, local_y)) == (
            Range { start: local_y as i64, end: (local_y + 1) as i64 },
            Range { start: local_x as i64, end: (local_x + 1) as i64 },
        ),
        spec_active_rect(0) == (Range { start: 0i64, end: 0i64 }, Range { start: 0i64, end: 0i64 }),
{
    let m = chunk_mark(0, local_x, local_y);
    lemma_zero_word(0);
    lemma_mark(0, local_x, local_y);
    lemma_span(0u32);
    lemma_span(row_bits(m));
    lemma_span(col_bits(m));
    assert(chunk_row_active(m, local_y));
    assert(chunk_col_active(m, local_x));
    lemma_zero_word(m);
    if row_bits(m) != 0 {
        assert(chunk_row_active(m, span_start(row_bits(m))));
        assert(chunk_row_active(m, span_end(row_bits(m)) - 1));
    }
    if col_bits(m) != 0 {
        assert(chunk_col_active(m, span_start(col_bits(m))));
        assert(chunk_col_active(m, span_end(col_bits(m)) - 1));
    }
}

/// After any run of marks on an empty block, a row is active exactly when
/// one of the marked cells lies in it, and every active row lies within
/// the rows of the active rectangle.
pub proof fn lemma_row_skip(cells: Seq<(int, int)>, row: int)
    requires
        local_cells(cells),
    ensures
        chunk_row_active(chunk_mark_all(0, cells), row) <==> marks_row(cells, row),
        chunk_row_active(chunk_mark_all(0, cells), row) ==> spec_active_rect(
            chunk_mark_all(0, cells),
        ).0.start <= row < spec_active_rect(chunk_mark_all(0, cells)).0.end,
{
    let m = chunk_mark_all(0, cells);
    lemma_mark_all(0, cells);
    lemma_zero_word(0);
    lemma_zero_word(m);
    lemma_span(0u32);
    lemma_span(row_bits(m));
    assert(chunk_row_active(m, row) <==> (chunk_row_active(0, row) || marks_row(cells, row)));
}

/// Marking every cell of a block sets all 64 bits of its word and gives
/// the full rectangle.
pub proof fn lemma_full_chunk(cells: Seq<(int, int)>)
    requires
        local_cells(cells),
        forall|x: int, y: int| 0 <= x < 32 && 0 <= y < 32 ==> #[trigger] cells.contains((x, y)),
    ensures
        chunk_mark_all(0, cells) == -1i64,
        spec_active_rect(chunk_mark_all(0, cells)) == (
            Range { start: 0i64, end: 32i64 },
            Range { start: 0i64, end: 32i64 },
        ),
{
    let m = chunk_mark_all(0, cells);
    lemma_mark_all(0, cells);
    assert forall|i: int| 0 <= i < 32 implies bit_set(row_bits(m), i) && bit_set(col_bits(m), i) by {
        assert(cells.contains((i, i)));
        let k = choose|k: int| 0 <= k < cells.len() && cells[k] == (i, i);
        assert(cells[k].1 == i && cells[k].0 == i);
        assert(marks_row(cells, i) && marks_col(cells, i));
        assert(chunk_row_active(m, i) && chunk_col_active(m, i));
    }
    lemma_all_bits(row_bits(m));
    lemma_all_bits(col_bits(m));
    assert(m == -1i64) by (bit_vector)
        requires
            m as u32 == 0xffff_ffffu32,
            (m >> 32u32) as u32 == 0xffff_ffffu32,
    ;
    lemma_span(0xffff_ffffu32);
    assert(bit_set(0xffff_ffffu32, 0) && bit_set(0xffff_ffffu32, 31)) by {
        assert((0xffff_ffffu32 >> 0u32) & 1u32 == 1u32 && (0xffff_ffffu32 >> 31u32) & 1u32 == 1u32)
            by (bit_vector);
    }
}

/// A half with every bit set is all ones.
proof fn lemma_all_bits(bits: u32)
    requires
        forall|i: int| 0 <= i < 32 ==> bit_set(bits, i),
    ensures
        bits == 0xffff_ffffu32,
{
    axiom_u32_trailing_ones(bits);
    let t = u32_trailing_zeros(!bits);
    if t < 32 {
        assert(bit_set(bits, t as int));
    }
}

} // verus!
