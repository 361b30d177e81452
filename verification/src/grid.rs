//! Grid storage: a dense row-major buffer of cell words and a column-major
//! buffer of chunk activity words, both sized to whole chunks.

use crate::cell::{cell_fields, lemma_with_active, with_active, CellTrait};
use crate::chunk::{chunk_mark, chunk_marked};
use crate::error::SimError;
use vstd::prelude::*;

verus! {

/// The fewest chunks along either side of a grid.
pub const MIN_CHUNKS: u64 = 3;

/// The most chunks that a grid may hold. It keeps every cell offset, and
/// the size of either buffer, within the address space of every target.
pub const MAX_CHUNK_COUNT: u64 = 0x4_0000;

/// The number of chunks in a vertical strip is a multiple of this, so that
/// the activity words of two strips never share a cache line.
pub const STRIP_ALIGN: u64 = 8;

/// The mathematical content of a grid.
pub struct GridView {
    /// Cells per row.
    pub width: int,
    /// Cells per column.
    pub height: int,
    /// Chunks per row.
    pub chunk_width: int,
    /// Chunks per column, which is the length of one vertical strip.
    pub chunk_height: int,
    /// Cell words, row by row.
    pub cells: Seq<u32>,
    /// Chunk activity words, strip by strip.
    pub chunks: Seq<i64>,
}

impl GridView {
    /// The shape rules of a grid: whole chunks, at least three a side, the
    /// strip length a multiple of eight, no more than `MAX_CHUNK_COUNT`
    /// chunks in all, and buffers of matching length.
    pub open spec fn wf(self) -> bool {
        &&& MIN_CHUNKS <= self.chunk_width <= MAX_CHUNK_COUNT
        &&& STRIP_ALIGN <= self.chunk_height <= MAX_CHUNK_COUNT
        &&& self.chunk_height % (STRIP_ALIGN as int) == 0
        &&& self.chunk_width * self.chunk_height <= MAX_CHUNK_COUNT
        &&& self.width == 32 * self.chunk_width
        &&& self.height == 32 * self.chunk_height
        &&& self.cells.len() == self.width * self.height
        &&& self.chunks.len() == self.chunk_width * self.chunk_height
    }

    /// Whether `(x, y)` is a position of the grid.
    pub open spec fn in_bounds(self, x: int, y: int) -> bool {
        0 <= x < self.width && 0 <= y < self.height
    }

    /// Offset of the cell at `(x, y)` in the row-major cell buffer.
    pub open spec fn cell_index(self, x: int, y: int) -> int {
        y * self.width + x
    }

    /// Offset of the chunk that holds the cell at `(x, y)` in the
    /// column-major chunk buffer.
    pub open spec fn chunk_index(self, x: int, y: int) -> int {
        y / 32 + (x / 32) * self.chunk_height
    }

    /// The cell at `(x, y)`.
    pub open spec fn cell(self, x: int, y: int) -> u32 {
        self.cells[self.cell_index(x, y)]
    }

    /// The activity word of the chunk that holds the cell at `(x, y)`.
    pub open spec fn chunk(self, x: int, y: int) -> i64 {
        self.chunks[self.chunk_index(x, y)]
    }

    /// The grid with `cell` at `(x, y)`.
    pub open spec fn with_cell(self, x: int, y: int, cell: u32) -> GridView {
        GridView { cells: self.cells.update(self.cell_index(x, y), cell), ..self }
    }

    /// The grid with `chunk` as the activity word of the chunk that holds
    /// `(x, y)`.
    pub open spec fn with_chunk(self, x: int, y: int, chunk: i64) -> GridView {
        GridView { chunks: self.chunks.update(self.chunk_index(x, y), chunk), ..self }
    }

    /// The grid after the row and column of `(x, y)` were marked in its
    /// chunk.
    pub open spec fn mark_active(self, x: int, y: int) -> GridView {
        self.with_chunk(x, y, chunk_mark(self.chunk(x, y), x % 32, y % 32))
    }

    /// The grid after `cell`, with its active flag set, was stored at
    /// `(x, y)` and its chunk marked.
    pub open spec fn put_active(self, x: int, y: int, cell: u32) -> GridView {
        self.with_cell(x, y, with_active(cell, true)).mark_active(x, y)
    }

    /// The grid after the cell at `(x, y)` was made active as it is. A
    /// position outside the grid has no cell, and nothing changes.
    pub open spec fn force_active(self, x: int, y: int) -> GridView {
        if self.in_bounds(x, y) {
            self.put_active(x, y, self.cell(x, y))
        } else {
            self
        }
    }

    /// The grid after the eight cells around `(x, y)` were made active.
    pub open spec fn wake_neighbors(self, x: int, y: int) -> GridView {
        self.force_active(x - 1, y).force_active(x + 1, y).force_active(x - 1, y - 1).force_active(
            x,
            y - 1,
        ).force_active(x + 1, y - 1).force_active(x - 1, y + 1).force_active(x, y + 1).force_active(
            x + 1,
            y + 1,
        )
    }

    /// The grid after `cell` was stored active at `(x, y)` and the eight
    /// cells around it were made active.
    pub open spec fn put_changed(self, x: int, y: int, cell: u32) -> GridView {
        self.put_active(x, y, cell).wake_neighbors(x, y)
    }

    /// Whether every cell names a material of index below `table_len`.
    pub open spec fn materials_below(self, table_len: int) -> bool {
        forall|i: int|
            0 <= i < self.cells.len() ==> cell_fields(#[trigger] self.cells[i]).material < table_len
    }

    /// Whether two grids have the same shape.
    pub open spec fn same_shape(self, other: GridView) -> bool {
        &&& self.width == other.width
        &&& self.height == other.height
        &&& self.chunk_width == other.chunk_width
        &&& self.chunk_height == other.chunk_height
    }
}

/// The offsets of a position inside a grid lie within its two buffers.
pub proof fn lemma_offsets_bound(grid: GridView, x: int, y: int)
    requires
        grid.wf(),
        grid.in_bounds(x, y),
    ensures
        0 <= grid.cell_index(x, y) < grid.cells.len(),
        0 <= grid.chunk_index(x, y) < grid.chunks.len(),
{
    lemma_index_bound(x, y, grid.width, grid.height);
    lemma_index_bound(y / 32, x / 32, grid.chunk_height, grid.chunk_width);
    assert(grid.chunk_width * grid.chunk_height == grid.chunk_height * grid.chunk_width)
        by (nonlinear_arith);
}

/// Storing a cell keeps every cell within a material table that holds the
/// stored cell's material.
pub proof fn lemma_with_cell_known(grid: GridView, x: int, y: int, cell: u32, table_len: int)
    requires
        grid.wf(),
        grid.in_bounds(x, y),
        grid.materials_below(table_len),
        cell_fields(cell).material < table_len,
    ensures
        grid.with_cell(x, y, cell).wf(),
        grid.with_cell(x, y, cell).materials_below(table_len),
        grid.with_cell(x, y, cell).same_shape(grid),
{
    lemma_offsets_bound(grid, x, y);
}

/// Storing a cell as active keeps every cell within a material table that
/// holds the stored cell's material.
pub proof fn lemma_put_active_known(grid: GridView, x: int, y: int, cell: u32, table_len: int)
    requires
        grid.wf(),
        grid.in_bounds(x, y),
        grid.materials_below(table_len),
        cell_fields(cell).material < table_len,
    ensures
        grid.put_active(x, y, cell).wf(),
        grid.put_active(x, y, cell).materials_below(table_len),
        grid.put_active(x, y, cell).same_shape(grid),
{
    lemma_with_active(cell, true);
    lemma_with_cell_known(grid, x, y, with_active(cell, true), table_len);
    lemma_offsets_bound(grid.with_cell(x, y, with_active(cell, true)), x, y);
}

/// Making a cell active changes no cell's material.
pub proof fn lemma_force_active_known(grid: GridView, x: int, y: int, table_len: int)
    requires
        grid.wf(),
        grid.materials_below(table_len),
    ensures
        grid.force_active(x, y).wf(),
        grid.force_active(x, y).materials_below(table_len),
        grid.force_active(x, y).same_shape(grid),
{
    if grid.in_bounds(x, y) {
        lemma_offsets_bound(grid, x, y);
        lemma_put_active_known(grid, x, y, grid.cell(x, y), table_len);
    }
}

/// Waking the cells around a position changes no cell's material.
pub proof fn lemma_wake_neighbors_known(grid: GridView, x: int, y: int, table_len: int)
    requires
        grid.wf(),
        grid.materials_below(table_len),
    ensures
        grid.wake_neighbors(x, y).wf(),
        grid.wake_neighbors(x, y).materials_below(table_len),
        grid.wake_neighbors(x, y).same_shape(grid),
{
    let g1 = grid.force_active(x - 1, y);
    lemma_force_active_known(grid, x - 1, y, table_len);
    let g2 = g1.force_active(x + 1, y);
    lemma_force_active_known(g1, x + 1, y, table_len);
    let g3 = g2.force_active(x - 1, y - 1);
    lemma_force_active_known(g2, x - 1, y - 1, table_len);
    let g4 = g3.force_active(x, y - 1);
    lemma_force_active_known(g3, x, y - 1, table_len);
    let g5 = g4.force_active(x + 1, y - 1);
    lemma_force_active_known(g4, x + 1, y - 1, table_len);
    let g6 = g5.force_active(x - 1, y + 1);
    lemma_force_active_known(g5, x - 1, y + 1, table_len);
    let g7 = g6.force_active(x, y + 1);
    lemma_force_active_known(g6, x, y + 1, table_len);
    lemma_force_active_known(g7, x + 1, y + 1, table_len);
}

/// Storing a changed cell keeps every cell within a material table that
/// holds the stored cell's material.
pub proof fn lemma_put_changed_known(grid: GridView, x: int, y: int, cell: u32, table_len: int)
    requires
        grid.wf(),
        grid.in_bounds(x, y),
        grid.materials_below(table_len),
        cell_fields(cell).material < table_len,
    ensures
        grid.put_changed(x, y, cell).wf(),
        grid.put_changed(x, y, cell).materials_below(table_len),
        grid.put_changed(x, y, cell).same_shape(grid),
{
    lemma_put_active_known(grid, x, y, cell, table_len);
    lemma_wake_neighbors_known(grid.put_active(x, y, cell), x, y, table_len);
}

/// In a grid of `width` columns, a cell's offset is within the buffer.
pub proof fn lemma_index_bound(x: int, y: int, width: int, height: int)
    requires
        0 <= x < width,
        0 <= y < height,
    ensures
        0 <= y * width + x < width * height,
{
    assert(y * width + x < width * height) by (nonlinear_arith)
        requires
            0 <= x < width,
            0 <= y < height,
    ;
    assert(0 <= y * width) by (nonlinear_arith)
        requires
            0 <= y,
            0 <= width,
    ;
}

/// The two buffers of a grid are no longer than its chunk count allows.
pub proof fn lemma_buffers_bound(grid: GridView)
    requires
        grid.wf(),
    ensures
        grid.cells.len() == 1024 * (grid.chunk_width * grid.chunk_height),
        grid.cells.len() <= 1024 * MAX_CHUNK_COUNT,
        grid.chunks.len() <= MAX_CHUNK_COUNT,
{
    assert((32 * grid.chunk_width) * (32 * grid.chunk_height) == 1024 * (grid.chunk_width
        * grid.chunk_height)) by (nonlinear_arith);
}

/// Two positions with the same offset are the same position.
pub proof fn lemma_index_injective(x1: int, y1: int, x2: int, y2: int, width: int)
    requires
        0 <= x1 < width,
        0 <= x2 < width,
        y1 * width + x1 == y2 * width + x2,
    ensures
        x1 == x2,
        y1 == y2,
{
    assert(y1 == y2) by (nonlinear_arith)
        requires
            0 <= x1 < width,
            0 <= x2 < width,
            y1 * width + x1 == y2 * width + x2,
    ;
}

/// Storing a cell as active changes that cell, and no other.
pub proof fn lemma_put_active_cell(grid: GridView, x: int, y: int, cell: u32, ox: int, oy: int)
    requires
        grid.wf(),
        grid.in_bounds(x, y),
        grid.in_bounds(ox, oy),
    ensures
        grid.put_active(x, y, cell).cell(ox, oy) == if ox == x && oy == y {
            with_active(cell, true)
        } else {
            grid.cell(ox, oy)
        },
{
    lemma_offsets_bound(grid, x, y);
    lemma_offsets_bound(grid, ox, oy);
    if grid.cell_index(x, y) == grid.cell_index(ox, oy) {
        lemma_index_injective(x, y, ox, oy, grid.width);
    }
}

/// Coordinates within a chunk.
pub trait CoordTrait: Sized {
    /// The coordinate as a mathematical integer.
    spec fn coord(&self) -> int;

    /// The coordinate within its chunk.
    fn to_chunk_local(self) -> (local: Self)
        requires
            self.coord() >= 0,
        ensures
            local.coord() == self.coord() % 32,
    ;
}

impl CoordTrait for i64 {
    open spec fn coord(&self) -> int {
        *self as int
    }

    fn to_chunk_local(self) -> (local: i64) {
        self % 32
    }
}

/// A dense grid of cells with one activity word per 32×32 chunk.
pub struct Grid {
    cells: Vec<u32>,
    width: usize,
    height: usize,
    chunks: Vec<i64>,
    chunk_width: usize,
    chunk_height: usize,
}

impl View for Grid {
    type V = GridView;

    closed spec fn view(&self) -> GridView {
        GridView {
            width: self.width as int,
            height: self.height as int,
            chunk_width: self.chunk_width as int,
            chunk_height: self.chunk_height as int,
            cells: self.cells@,
            chunks: self.chunks@,
        }
    }
}

impl Default for Grid {
    /// The smallest grid.
    fn default() -> (grid: Grid)
        ensures
            grid.wf(),
            grid@.chunk_width == 3,
            grid@.chunk_height == 8,
            forall|i: int| 0 <= i < grid@.cells.len() ==> grid@.cells[i] == 0,
            forall|i: int| 0 <= i < grid@.chunks.len() ==> grid@.chunks[i] == 0,
    {
        match Grid::new_empty(0, 0) {
            Ok(grid) => grid,
            Err(_) => unreached(),
        }
    }
}

/// The chunk count that `Grid::new_empty` makes of a requested one: at
/// least three.
pub open spec fn clamped_chunks(requested: int) -> int {
    if requested < 3 {
        3
    } else {
        requested
    }
}

/// The least multiple of eight that is not below `n`.
pub open spec fn strip_aligned(n: int) -> int {
    ((n + 7) / 8) * 8
}

/// The number of chunks in the grid that `Grid::new_empty` makes of a
/// requested width and height.
pub open spec fn chunk_count(chunk_width: int, chunk_height: int) -> int {
    clamped_chunks(chunk_width) * strip_aligned(clamped_chunks(chunk_height))
}

/// A grid holds at least as many chunks as either of its sides.
pub proof fn lemma_chunk_count_sides(chunk_width: int, chunk_height: int)
    requires
        0 <= chunk_width,
        0 <= chunk_height,
    ensures
        chunk_width <= clamped_chunks(chunk_width) <= chunk_count(chunk_width, chunk_height),
        chunk_height <= strip_aligned(clamped_chunks(chunk_height)) <= chunk_count(
            chunk_width,
            chunk_height,
        ),
{
    let w = clamped_chunks(chunk_width);
    let h = strip_aligned(clamped_chunks(chunk_height));
    assert(w <= w * h && h <= w * h) by (nonlinear_arith)
        requires
            w >= 3,
            h >= 8,
    ;
}

impl Grid {
    /// The shape rules of a grid, which every operation keeps.
    pub open spec fn wf(&self) -> bool {
        self@.wf()
    }

    /// Whether a grid of `chunk_width` by `chunk_height` chunks, each raised
    /// to at least three, and the height then to a multiple of eight, holds
    /// no more than `MAX_CHUNK_COUNT` chunks.
    pub fn admits(chunk_width: u64, chunk_height: u64) -> (admitted: bool)
        ensures
            admitted == (chunk_count(chunk_width as int, chunk_height as int) <= MAX_CHUNK_COUNT),
    {
        if chunk_width > MAX_CHUNK_COUNT || chunk_height > MAX_CHUNK_COUNT {
            proof {
                lemma_chunk_count_sides(chunk_width as int, chunk_height as int);
            }
            return false;
        }
        let cw: u64 = if chunk_width < MIN_CHUNKS {
            MIN_CHUNKS
        } else {
            chunk_width
        };
        let clamped: u64 = if chunk_height < MIN_CHUNKS {
            MIN_CHUNKS
        } else {
            chunk_height
        };
        let ch: u64 = (clamped + (STRIP_ALIGN - 1)) / STRIP_ALIGN * STRIP_ALIGN;
        assert(cw * ch <= 0x4_0000 * 0x4_0008) by (nonlinear_arith)
            requires
                0 <= cw <= 0x4_0000,
                0 <= ch <= 0x4_0008,
        ;
        cw * ch <= MAX_CHUNK_COUNT
    }

    /// A zeroed grid of `chunk_width` by `chunk_height` chunks, each raised
    /// to at least three, and the height then raised to a multiple of
    /// eight. A grid of more than `MAX_CHUNK_COUNT` chunks is refused.
    pub fn new_empty(chunk_width: u64, chunk_height: u64) -> (made: Result<Grid, SimError>)
        ensures
            made is Err <==> chunk_count(chunk_width as int, chunk_height as int)
                > MAX_CHUNK_COUNT,
            made matches Err(e) ==> e == SimError::InvalidDimensions,
            made matches Ok(grid) ==> {
                &&& grid.wf()
                &&& grid@.chunk_width == clamped_chunks(chunk_width as int)
                &&& grid@.chunk_height == strip_aligned(clamped_chunks(chunk_height as int))
                &&& forall|i: int| 0 <= i < grid@.cells.len() ==> grid@.cells[i] == 0
                &&& forall|i: int| 0 <= i < grid@.chunks.len() ==> grid@.chunks[i] == 0
            },
    {
        if !Grid::admits(chunk_width, chunk_height) {
            return Err(SimError::InvalidDimensions);
        }
        proof {
            lemma_chunk_count_sides(chunk_width as int, chunk_height as int);
        }
        let cw: usize = if chunk_width < MIN_CHUNKS {
            MIN_CHUNKS as usize
        } else {
            chunk_width as usize
        };
        let clamped: usize = if chunk_height < MIN_CHUNKS {
            MIN_CHUNKS as usize
        } else {
            chunk_height as usize
        };
        let ch: usize = (clamped + (STRIP_ALIGN as usize - 1)) / STRIP_ALIGN as usize
            * STRIP_ALIGN as usize;
        let width: usize = cw * 32;
        let height: usize = ch * 32;
        assert(width * height == 1024 * (cw * ch)) by (nonlinear_arith)
            requires
                width == cw * 32,
                height == ch * 32,
        ;
        let cells: Vec<u32> = vec![0u32; width * height];
        let chunks: Vec<i64> = vec![0i64; cw * ch];
        Ok(Grid { cells, width, height, chunks, chunk_width: cw, chunk_height: ch })
    }

    /// Cells per row.
    pub fn width(&self) -> (width: i64)
        requires
            self.wf(),
        ensures
            width == self@.width,
    {
        self.width as i64
    }

    /// Cells per column.
    pub fn height(&self) -> (height: i64)
        requires
            self.wf(),
        ensures
            height == self@.height,
    {
        self.height as i64
    }

    /// Chunks per row.
    pub fn chunk_width(&self) -> (chunks: i64)
        requires
            self.wf(),
        ensures
            chunks == self@.chunk_width,
    {
        self.chunk_width as i64
    }

    /// Chunks per column.
    pub fn chunk_height(&self) -> (chunks: i64)
        requires
            self.wf(),
        ensures
            chunks == self@.chunk_height,
    {
        self.chunk_height as i64
    }

    /// Whether `(x, y)` is a position of the grid.
    pub fn in_bounds(&self, x: i64, y: i64) -> (inside: bool)
        requires
            self.wf(),
        ensures
            inside == self@.in_bounds(x as int, y as int),
    {
        0 <= x && x < self.width as i64 && 0 <= y && y < self.height as i64
    }

    /// Offset of the cell at `(x, y)`: `y * width + x`, so that a
    /// horizontal scan is sequential.
    pub fn cell_idx(&self, x: i64, y: i64) -> (idx: usize)
        requires
            self.wf(),
            self@.in_bounds(x as int, y as int),
        ensures
            idx == self@.cell_index(x as int, y as int),
            idx < self@.cells.len(),
    {
        proof {
            lemma_index_bound(x as int, y as int, self@.width, self@.height);
            lemma_index_bound(0, y as int, self@.width, self@.height);
            lemma_buffers_bound(self@);
        }
        y as usize * self.width + x as usize
    }

    /// Offset of the chunk that holds the cell at `(x, y)`:
    /// `y / 32 + (x / 32) * chunk_height`, so that the chunks of a vertical
    /// strip are contiguous.
    pub fn chunk_idx(&self, x: i64, y: i64) -> (idx: usize)
        requires
            self.wf(),
            self@.in_bounds(x as int, y as int),
        ensures
            idx == self@.chunk_index(x as int, y as int),
            idx < self@.chunks.len(),
    {
        let cx: usize = x as usize / 32;
        let cy: usize = y as usize / 32;
        proof {
            lemma_index_bound(cy as int, cx as int, self@.chunk_height, self@.chunk_width);
            lemma_index_bound(0, cx as int, self@.chunk_height, self@.chunk_width);
            lemma_buffers_bound(self@);
            assert(self@.chunk_width * self@.chunk_height == self@.chunk_height
                * self@.chunk_width) by (nonlinear_arith);
        }
        cy + cx * self.chunk_height
    }

    /// The cell at `(x, y)`.
    pub fn get_cell(&self, x: i64, y: i64) -> (cell: u32)
        requires
            self.wf(),
            self@.in_bounds(x as int, y as int),
        ensures
            cell == self@.cell(x as int, y as int),
    {
        let idx = self.cell_idx(x, y);
        self.cells[idx]
    }

    /// Stores `cell` at `(x, y)` as it is, and leaves the chunk words.
    pub fn set_cell(&mut self, x: i64, y: i64, cell: u32)
        requires
            old(self).wf(),
            old(self)@.in_bounds(x as int, y as int),
        ensures
            final(self)@ == old(self)@.with_cell(x as int, y as int, cell),
            final(self).wf(),
    {
        let idx = self.cell_idx(x, y);
        self.cells[idx] = cell;
    }

    /// The activity word of the chunk that holds the cell at `(x, y)`.
    pub fn chunk(&self, x: i64, y: i64) -> (word: i64)
        requires
            self.wf(),
            self@.in_bounds(x as int, y as int),
        ensures
            word == self@.chunk(x as int, y as int),
    {
        let idx = self.chunk_idx(x, y);
        self.chunks[idx]
    }

    /// Reads the activity word of the chunk that holds `(x, y)` and leaves
    /// zero in its place.
    pub fn take_chunk(&mut self, x: i64, y: i64) -> (word: i64)
        requires
            old(self).wf(),
            old(self)@.in_bounds(x as int, y as int),
        ensures
            word == old(self)@.chunk(x as int, y as int),
            final(self)@ == old(self)@.with_chunk(x as int, y as int, 0),
            final(self).wf(),
    {
        let idx = self.chunk_idx(x, y);
        let word = self.chunks[idx];
        self.chunks[idx] = 0;
        word
    }

    /// Marks the row and column of `(x, y)` in its chunk's activity word.
    pub(crate) fn mark_active(&mut self, x: i64, y: i64)
        requires
            old(self).wf(),
            old(self)@.in_bounds(x as int, y as int),
        ensures
            final(self)@ == old(self)@.mark_active(x as int, y as int),
            final(self).wf(),
    {
        let idx = self.chunk_idx(x, y);
        let word = self.chunks[idx];
        self.chunks[idx] = chunk_marked(word, x.to_chunk_local(), y.to_chunk_local());
    }

    /// Stores `cell` at `(x, y)` with its active flag set, and marks its
    /// chunk.
    pub fn put_active(&mut self, x: i64, y: i64, cell: u32)
        requires
            old(self).wf(),
            old(self)@.in_bounds(x as int, y as int),
        ensures
            final(self)@ == old(self)@.put_active(x as int, y as int, cell),
            final(self).wf(),
    {
        let mut cell = cell;
        cell.set_active(true);
        self.set_cell(x, y, cell);
        self.mark_active(x, y);
    }

    /// Makes the cell at `(x, y)` active without changing anything else of
    /// it. A position outside the grid is left alone.
    pub fn force_active(&mut self, x: i64, y: i64)
        requires
            old(self).wf(),
        ensures
            final(self)@ == old(self)@.force_active(x as int, y as int),
            final(self).wf(),
    {
        if self.in_bounds(x, y) {
            let cell = self.get_cell(x, y);
            self.put_active(x, y, cell);
        }
    }

    /// Makes the eight cells around `(x, y)` active.
    pub fn wake_neighbors(&mut self, x: i64, y: i64)
        requires
            old(self).wf(),
            old(self)@.in_bounds(x as int, y as int),
        ensures
            final(self)@ == old(self)@.wake_neighbors(x as int, y as int),
            final(self).wf(),
    {
        self.force_active(x - 1, y);
        self.force_active(x + 1, y);
        self.force_active(x - 1, y - 1);
        self.force_active(x, y - 1);
        self.force_active(x + 1, y - 1);
        self.force_active(x - 1, y + 1);
        self.force_active(x, y + 1);
        self.force_active(x + 1, y + 1);
    }

    /// Stores `cell` active at `(x, y)` and makes the eight cells around
    /// it active: a changed cell may open reactions all around it.
    pub fn put_changed(&mut self, x: i64, y: i64, cell: u32)
        requires
            old(self).wf(),
            old(self)@.in_bounds(x as int, y as int),
        ensures
            final(self)@ == old(self)@.put_changed(x as int, y as int, cell),
            final(self).wf(),
    {
        self.put_active(x, y, cell);
        self.wake_neighbors(x, y);
    }

    /// Whether every cell names a material of index below `table_len`.
    pub fn all_materials_below(&self, table_len: usize) -> (all: bool)
        requires
            self.wf(),
        ensures
            all == self@.materials_below(table_len as int),
    {
        let mut i: usize = 0;
        while i < self.cells.len()
            invariant
                i <= self.cells@.len(),
                self.cells@ == self@.cells,
                forall|k: int|
                    0 <= k < i ==> cell_fields(#[trigger] self.cells@[k]).material < table_len,
            decreases self.cells@.len() - i,
        {
            if self.cells[i].material_idx() as usize >= table_len {
                return false;
            }
            i = i + 1;
        }
        true
    }
}

} // verus!
