//! The simulation context and the operations that a host performs on it.
//!
//! The context owns the grid, its chunk map, the material table and the
//! generation flag. Every operation takes it by reference, checks what it
//! is given, and reports what it refuses.

use crate::activity::{
    lemma_covered_kept, lemma_force_active_covers, lemma_inactive_covered,
    lemma_put_active_covers, lemma_put_changed_covers, lemma_wake_neighbors_covers,
};
use crate::cell::{cell_fields, with_active, with_material, CellTrait};
use crate::error::SimError;
use crate::grid::{
    chunk_count, clamped_chunks, lemma_force_active_known, lemma_put_active_cell,
    lemma_put_active_known, lemma_put_changed_known, lemma_wake_neighbors_known, strip_aligned,
    Grid, GridView, MAX_CHUNK_COUNT,
};
use crate::material::{
    is_valid_table, valid_table, CellCollision, CellMovement, Material, Reaction, PROBABILITY_ONE,
};
use crate::phf_range::{packed_end, packed_start};
use crate::sweep::{lemma_strips_swept_next, step_column, strips_swept};
use vstd::prelude::*;

verus! {

/// The mathematical content of a simulation.
pub struct SimulationView {
    /// The grid, where one was created and not freed since.
    pub grid: Option<GridView>,
    pub materials: Seq<Material>,
    /// The reference flag of the current generation: a cell whose updated
    /// flag equals it was visited in this generation.
    pub generation: bool,
}

impl SimulationView {
    /// The rules of a simulation: a valid material table, and a grid of
    /// valid shape whose every cell names a material of the table and
    /// whose every active cell is marked in the activity word of its
    /// chunk.
    pub open spec fn wf(self) -> bool {
        &&& valid_table(self.materials)
        &&& self.grid matches Some(grid) ==> grid.wf() && grid.materials_below(
            self.materials.len() as int,
        ) && grid.covered()
    }
}

/// A simulation: a grid of cells, the table of their materials, and the
/// generation flag.
pub struct Simulation {
    grid: Option<Grid>,
    materials: Vec<Material>,
    generation: bool,
}

impl View for Simulation {
    type V = SimulationView;

    closed spec fn view(&self) -> SimulationView {
        SimulationView {
            grid: match self.grid {
                Some(grid) => Some(grid@),
                None => None,
            },
            materials: self.materials@,
            generation: self.generation,
        }
    }
}

impl Default for Simulation {
    /// A simulation without a grid and without materials.
    fn default() -> (sim: Simulation)
        ensures
            sim.wf(),
            sim@.grid is None,
            sim@.materials.len() == 0,
            !sim@.generation,
    {
        Simulation::new()
    }
}

/// The number of chunks that `cells` cells need.
pub open spec fn chunks_for(cells: int) -> int {
    (cells + 31) / 32
}

impl Simulation {
    /// The rules of a simulation, which every operation keeps.
    pub open spec fn wf(&self) -> bool {
        self@.wf()
    }

    /// A simulation without a grid and without materials.
    pub fn new() -> (sim: Simulation)
        ensures
            sim.wf(),
            sim@.grid is None,
            sim@.materials.len() == 0,
            !sim@.generation,
    {
        Simulation { grid: None, materials: Vec::new(), generation: false }
    }

    /// The material table.
    pub fn materials(&self) -> (materials: &Vec<Material>)
        ensures
            materials@ == self@.materials,
    {
        &self.materials
    }

    /// The reference flag of the current generation.
    pub fn generation(&self) -> (generation: bool)
        ensures
            generation == self@.generation,
    {
        self.generation
    }

    /// The grid, where there is one.
    pub fn grid(&self) -> (grid: Option<&Grid>)
        ensures
            grid is Some <==> self@.grid is Some,
            grid matches Some(g) ==> Some(g@) == self@.grid,
    {
        self.grid.as_ref()
    }
}

/// Replaces the material table.
///
/// A table that breaks the rules of `valid_table` is refused as
/// `InvalidMaterial`. A valid table that lacks a material which a cell of
/// the grid names is refused as `UnknownMaterial`.
pub fn load_materials(sim: &mut Simulation, materials: Vec<Material>) -> (loaded: Result<
    (),
    SimError,
>)
    requires
        old(sim).wf(),
    ensures
        final(sim).wf(),
        match loaded {
            Ok(()) => {
                &&& valid_table(materials@)
                &&& old(sim)@.grid matches Some(grid) ==> grid.materials_below(
                    materials@.len() as int,
                )
                &&& final(sim)@ == (SimulationView { materials: materials@, ..old(sim)@ })
            },
            Err(SimError::InvalidMaterial) => !valid_table(materials@) && final(sim)@ == old(sim)@,
            Err(SimError::UnknownMaterial) => {
                &&& valid_table(materials@)
                &&& old(sim)@.grid matches Some(grid) && !grid.materials_below(
                    materials@.len() as int,
                )
                &&& final(sim)@ == old(sim)@
            },
            Err(_) => false,
        },
{
    if !is_valid_table(&materials) {
        return Err(SimError::InvalidMaterial);
    }
    if let Some(grid) = &sim.grid {
        if !grid.all_materials_below(materials.len()) {
            return Err(SimError::UnknownMaterial);
        }
    }
    sim.materials = materials;
    Ok(())
}

/// Releases the grid and its chunk map. Without a grid nothing happens.
pub fn free_grid(sim: &mut Simulation)
    requires
        old(sim).wf(),
    ensures
        final(sim).wf(),
        final(sim)@ == (SimulationView { grid: None, ..old(sim)@ }),
{
    sim.grid = None;
}

/// Whether there is a grid.
pub fn is_grid_initialized(sim: &Simulation) -> (initialized: bool)
    ensures
        initialized == sim@.grid is Some,
{
    sim.grid.is_some()
}

/// Whether a grid of at least `width` by `height` cells can be made: both
/// are positive, and the grid holds no more than `MAX_CHUNK_COUNT` chunks.
pub open spec fn valid_dimensions(width: int, height: int) -> bool {
    &&& 0 < width
    &&& 0 < height
    &&& chunk_count(chunks_for(width), chunks_for(height)) <= MAX_CHUNK_COUNT
}

/// Replaces the grid by a zeroed one that holds at least `width` by
/// `height` cells.
///
/// Each side is rounded up to whole chunks of 32 cells, with at least
/// three chunks a side, and the height then to a multiple of eight
/// chunks. A side that is not positive, or a grid of more than
/// `MAX_CHUNK_COUNT` chunks, is refused as `InvalidDimensions`. A zeroed
/// cell names material 0, so without any material the grid is refused as
/// `UnknownMaterial`.
pub fn new_empty_grid(sim: &mut Simulation, width: i64, height: i64) -> (made: Result<
    (),
    SimError,
>)
    requires
        old(sim).wf(),
    ensures
        final(sim).wf(),
        match made {
            Ok(()) => {
                &&& valid_dimensions(width as int, height as int)
                &&& old(sim)@.materials.len() > 0
                &&& final(sim)@.materials == old(sim)@.materials
                &&& final(sim)@.generation == old(sim)@.generation
                &&& final(sim)@.grid matches Some(grid)
                &&& grid.chunk_width == clamped_chunks(chunks_for(width as int))
                &&& grid.chunk_height == strip_aligned(clamped_chunks(chunks_for(height as int)))
                &&& forall|i: int| 0 <= i < grid.cells.len() ==> grid.cells[i] == 0
                &&& forall|i: int| 0 <= i < grid.chunks.len() ==> grid.chunks[i] == 0
            },
            Err(SimError::InvalidDimensions) => !valid_dimensions(width as int, height as int)
                && final(sim)@ == old(sim)@,
            Err(SimError::UnknownMaterial) => valid_dimensions(width as int, height as int) && old(
                sim,
            )@.materials.len() == 0 && final(sim)@ == old(sim)@,
            Err(_) => false,
        },
{
    if width <= 0 || height <= 0 {
        return Err(SimError::InvalidDimensions);
    }
    let chunk_width: u64 = ((width - 1) / 32 + 1) as u64;
    let chunk_height: u64 = ((height - 1) / 32 + 1) as u64;
    if !Grid::admits(chunk_width, chunk_height) {
        return Err(SimError::InvalidDimensions);
    }
    if sim.materials.len() == 0 {
        return Err(SimError::UnknownMaterial);
    }
    match Grid::new_empty(chunk_width, chunk_height) {
        Ok(grid) => {
            proof {
                assert(cell_fields(0u32).material == 0 && !cell_fields(0u32).active)
                    by (bit_vector);
                lemma_inactive_covered(grid@);
            }
            sim.grid = Some(grid);
            Ok(())
        },
        Err(e) => Err(e),
    }
}

/// The cell at `(x, y)`.
pub fn get_cell(sim: &Simulation, x: i64, y: i64) -> (cell: Result<u32, SimError>)
    requires
        sim.wf(),
    ensures
        match cell {
            Ok(word) => sim@.grid matches Some(grid) && grid.in_bounds(x as int, y as int) && word
                == grid.cell(x as int, y as int),
            Err(SimError::NotInitialized) => sim@.grid is None,
            Err(SimError::OutOfBounds) => sim@.grid matches Some(grid) && !grid.in_bounds(
                x as int,
                y as int,
            ),
            Err(_) => false,
        },
{
    match &sim.grid {
        None => Err(SimError::NotInitialized),
        Some(grid) => {
            if grid.in_bounds(x, y) {
                Ok(grid.get_cell(x, y))
            } else {
                Err(SimError::OutOfBounds)
            }
        },
    }
}

/// Whether a change of the cell at `(x, y)` to `cell` is accepted, and if
/// not, why.
pub open spec fn cell_refusal(sim: SimulationView, x: int, y: int, cell: u32) -> Option<SimError> {
    match sim.grid {
        None => Some(SimError::NotInitialized),
        Some(grid) => if !grid.in_bounds(x, y) {
            Some(SimError::OutOfBounds)
        } else if cell_fields(cell).material >= sim.materials.len() {
            Some(SimError::UnknownMaterial)
        } else {
            None
        },
    }
}

/// Whether the position `(x, y)` is accepted, and if not, why.
pub open spec fn position_refusal(sim: SimulationView, x: int, y: int) -> Option<SimError> {
    match sim.grid {
        None => Some(SimError::NotInitialized),
        Some(grid) => if !grid.in_bounds(x, y) {
            Some(SimError::OutOfBounds)
        } else {
            None
        },
    }
}

/// Stores `cell` at `(x, y)` with its active flag set, and marks its
/// chunk.
pub fn set_cell_active(sim: &mut Simulation, x: i64, y: i64, cell: u32) -> (done: Result<
    (),
    SimError,
>)
    requires
        old(sim).wf(),
    ensures
        final(sim).wf(),
        match cell_refusal(old(sim)@, x as int, y as int, cell) {
            Some(e) => done == Err::<(), SimError>(e) && final(sim)@ == old(sim)@,
            None => done is Ok && final(sim)@ == (SimulationView {
                grid: Some(old(sim)@.grid->0.put_active(x as int, y as int, cell)),
                ..old(sim)@
            }),
        },
{
    match sim.grid.take() {
        None => Err(SimError::NotInitialized),
        Some(mut grid) => {
            let done = if !grid.in_bounds(x, y) {
                Err(SimError::OutOfBounds)
            } else if cell.material_idx() as usize >= sim.materials.len() {
                Err(SimError::UnknownMaterial)
            } else {
                proof {
                    lemma_put_active_known(
                        grid@,
                        x as int,
                        y as int,
                        cell,
                        sim.materials@.len() as int,
                    );
                    lemma_put_active_covers(grid@, x as int, y as int, cell);
                    lemma_covered_kept(grid@, grid@.put_active(x as int, y as int, cell));
                }
                grid.put_active(x, y, cell);
                Ok(())
            };
            sim.grid = Some(grid);
            done
        },
    }
}

/// Stores `cell` active at `(x, y)` and makes the eight cells around it
/// active.
pub fn set_cell_changed(sim: &mut Simulation, x: i64, y: i64, cell: u32) -> (done: Result<
    (),
    SimError,
>)
    requires
        old(sim).wf(),
    ensures
        final(sim).wf(),
        match cell_refusal(old(sim)@, x as int, y as int, cell) {
            Some(e) => done == Err::<(), SimError>(e) && final(sim)@ == old(sim)@,
            None => done is Ok && final(sim)@ == (SimulationView {
                grid: Some(old(sim)@.grid->0.put_changed(x as int, y as int, cell)),
                ..old(sim)@
            }),
        },
{
    match sim.grid.take() {
        None => Err(SimError::NotInitialized),
        Some(mut grid) => {
            let done = if !grid.in_bounds(x, y) {
                Err(SimError::OutOfBounds)
            } else if cell.material_idx() as usize >= sim.materials.len() {
                Err(SimError::UnknownMaterial)
            } else {
                proof {
                    lemma_put_changed_known(
                        grid@,
                        x as int,
                        y as int,
                        cell,
                        sim.materials@.len() as int,
                    );
                    lemma_put_changed_covers(grid@, x as int, y as int, cell);
                    lemma_covered_kept(grid@, grid@.put_changed(x as int, y as int, cell));
                }
                grid.put_changed(x, y, cell);
                Ok(())
            };
            sim.grid = Some(grid);
            done
        },
    }
}

/// Makes the cell at `(x, y)` active without changing anything else of
/// it.
pub fn force_active(sim: &mut Simulation, x: i64, y: i64) -> (done: Result<(), SimError>)
    requires
        old(sim).wf(),
    ensures
        final(sim).wf(),
        match position_refusal(old(sim)@, x as int, y as int) {
            Some(e) => done == Err::<(), SimError>(e) && final(sim)@ == old(sim)@,
            None => done is Ok && final(sim)@ == (SimulationView {
                grid: Some(old(sim)@.grid->0.force_active(x as int, y as int)),
                ..old(sim)@
            }),
        },
{
    match sim.grid.take() {
        None => Err(SimError::NotInitialized),
        Some(mut grid) => {
            let done = if !grid.in_bounds(x, y) {
                Err(SimError::OutOfBounds)
            } else {
                proof {
                    lemma_force_active_known(
                        grid@,
                        x as int,
                        y as int,
                        sim.materials@.len() as int,
                    );
                    lemma_force_active_covers(grid@, x as int, y as int);
                    lemma_covered_kept(grid@, grid@.force_active(x as int, y as int));
                }
                grid.force_active(x, y);
                Ok(())
            };
            sim.grid = Some(grid);
            done
        },
    }
}

/// Makes the eight cells around `(x, y)` active. Those of them that lie
/// outside the grid are passed over.
pub fn set_cell_neightbor_active(sim: &mut Simulation, x: i64, y: i64) -> (done: Result<
    (),
    SimError,
>)
    requires
        old(sim).wf(),
    ensures
        final(sim).wf(),
        match position_refusal(old(sim)@, x as int, y as int) {
            Some(e) => done == Err::<(), SimError>(e) && final(sim)@ == old(sim)@,
            None => done is Ok && final(sim)@ == (SimulationView {
                grid: Some(old(sim)@.grid->0.wake_neighbors(x as int, y as int)),
                ..old(sim)@
            }),
        },
{
    match sim.grid.take() {
        None => Err(SimError::NotInitialized),
        Some(mut grid) => {
            let done = if !grid.in_bounds(x, y) {
                Err(SimError::OutOfBounds)
            } else {
                proof {
                    lemma_wake_neighbors_known(
                        grid@,
                        x as int,
                        y as int,
                        sim.materials@.len() as int,
                    );
                    lemma_wake_neighbors_covers(grid@, x as int, y as int);
                    lemma_covered_kept(grid@, grid@.wake_neighbors(x as int, y as int));
                }
                grid.wake_neighbors(x, y);
                Ok(())
            };
            sim.grid = Some(grid);
            done
        },
    }
}

/// Advances the simulation by one generation.
///
/// The generation flag is flipped, so that every cell counts as not yet
/// updated, and then every vertical strip of chunks but the first and the
/// last is swept, one after the other. The two strips at the border are
/// not swept.
pub fn step_generation(sim: &mut Simulation) -> (done: Result<(), SimError>)
    requires
        old(sim).wf(),
    ensures
        final(sim).wf(),
        final(sim)@.materials == old(sim)@.materials,
        match done {
            Ok(()) => {
                &&& final(sim)@.generation == !old(sim)@.generation
                &&& old(sim)@.grid matches Some(before)
                &&& final(sim)@.grid matches Some(after)
                &&& after.same_shape(before)
                &&& strips_swept(
                    before,
                    after,
                    old(sim)@.materials,
                    !old(sim)@.generation,
                    1,
                    before.chunk_width - 2,
                )
            },
            Err(e) => e == SimError::NotInitialized && old(sim)@.grid is None && final(sim)@ == old(
                sim,
            )@,
        },
{
    match sim.grid.take() {
        None => Err(SimError::NotInitialized),
        Some(mut grid) => {
            sim.generation = !sim.generation;
            let ghost grid0 = grid@;
            let strips = grid.chunk_width();
            let mut column: i64 = 1;
            while column < strips - 1
                invariant
                    grid.wf(),
                    grid@.covered(),
                    grid@.same_shape(grid0),
                    strips == grid@.chunk_width,
                    1 <= column <= strips - 1,
                    valid_table(sim.materials@),
                    grid@.materials_below(sim.materials@.len() as int),
                    strips_swept(grid0, grid@, sim.materials@, sim.generation, 1, column - 1),
                decreases strips - column,
            {
                let ghost before = grid@;
                step_column(&mut grid, &sim.materials, sim.generation, column as usize);
                proof {
                    lemma_strips_swept_next(
                        grid0,
                        before,
                        grid@,
                        sim.materials@,
                        sim.generation,
                        1,
                        column as int,
                    );
                }
                column = column + 1;
            }
            sim.grid = Some(grid);
            Ok(())
        },
    }
}

/// A material without reactions, with every other field at its default.
fn plain_material(display_name: &str) -> (material: Material)
    ensures
        material.display_name@ == display_name@,
        material.reactions_range@.len() == 0,
        material.reactions@.len() == 0,
{
    Material {
        display_name: display_name.to_owned(),
        color: (),
        movement: CellMovement::Solid,
        density: 0,
        durability: 0,
        collision: CellCollision::Solid,
        friction: 0,
        bounciness: 0,
        on_destroyed: (),
        reactions_range: Vec::new(),
        reactions: Vec::new(),
    }
}

/// Replaces materials and grid by a small test setup.
///
/// The table holds two materials: "air", which has one chance in ten per
/// trial of turning a neighbouring "react" cell into air, and "react",
/// which has no reactions of its own. The grid is the smallest one, every
/// cell of it active, all of them "react" but for one "air" cell in the
/// middle.
pub fn new_test_grid_with_materials(sim: &mut Simulation) -> (made: Result<(), SimError>)
    requires
        old(sim).wf(),
    ensures
        final(sim).wf(),
        made is Ok,
        final(sim)@.generation == old(sim)@.generation,
        final(sim)@.materials.len() == 2,
        final(sim)@.materials[0].display_name@ == "air"@,
        final(sim)@.materials[1].display_name@ == "react"@,
        final(sim)@.materials[0].reactions_range@ == seq![0u64, 0x1_0000_0000u64],
        final(sim)@.materials[0].reactions@ == seq![
            Reaction {
                probability: (PROBABILITY_ONE / 10) as u32,
                material_out1: None,
                material_out2: Some(0),
            },
        ],
        final(sim)@.materials[1].reactions_range@.len() == 0,
        final(sim)@.materials[1].reactions@.len() == 0,
        final(sim)@.grid matches Some(grid) && grid.chunk_width == 3 && grid.chunk_height == 8
            && forall|x: int, y: int|
            grid.in_bounds(x, y) ==> #[trigger] grid.cell(x, y) == if x == 48 && y == 128 {
                0x2000u32
            } else {
                0x2001u32
            },
{
    free_grid(sim);
    let mut air = plain_material("air");
    air.reactions_range.push(0);
    air.reactions_range.push(0x1_0000_0000);
    air.reactions.push(
        Reaction {
            probability: PROBABILITY_ONE / 10,
            material_out1: None,
            material_out2: Some(0),
        },
    );
    let react = plain_material("react");
    let mut materials: Vec<Material> = Vec::new();
    materials.push(air);
    materials.push(react);
    let ghost table = materials@;
    proof {
        assert(materials@[0].reactions_range@ =~= seq![0u64, 0x1_0000_0000u64]);
        assert(materials@[0].reactions@ =~= seq![
            Reaction {
                probability: (PROBABILITY_ONE / 10) as u32,
                material_out1: None,
                material_out2: Some(0),
            },
        ]);
        assert(packed_start(0u64) == 0 && packed_end(0u64) == 0 && packed_start(0x1_0000_0000u64)
            == 0 && packed_end(0x1_0000_0000u64) == 1) by {
            assert(0u64 & 0xFFFF_FFFF == 0 && 0u64 >> 32u64 == 0 && 0x1_0000_0000u64 & 0xFFFF_FFFF
                == 0 && 0x1_0000_0000u64 >> 32u64 == 1) by (bit_vector);
        }
        assert(materials@[0].wf());
        assert(materials@[0].outputs_below(2));
        assert(valid_table(materials@));
    }
    match load_materials(sim, materials) {
        Ok(()) => {},
        Err(e) => {
            return Err(e);
        },
    }
    proof {
        assert(chunks_for(1) == 1);
        assert(clamped_chunks(1) == 3);
        assert(strip_aligned(3) == 8);
        assert(chunk_count(1, 1) == 24);
        assert(valid_dimensions(1, 1));
    }
    match new_empty_grid(sim, 1, 1) {
        Ok(()) => {},
        Err(e) => {
            return Err(e);
        },
    }
    proof {
        assert(cell_fields(1u32).material == 1 && cell_fields(0u32).material == 0 && with_active(
            1u32,
            true,
        ) == 0x2001u32 && with_active(0u32, true) == 0x2000u32 && with_material(
            0u32,
            1u32,
        ) == 1u32) by (bit_vector);
    }
    let mut x: i64 = 0;
    while x < 96
        invariant
            0 <= x <= 96,
            sim.wf(),
            sim@.generation == old(sim)@.generation,
            sim@.materials == table,
            table.len() == 2,
            sim@.grid matches Some(grid) && grid.chunk_width == 3 && grid.chunk_height == 8
                && forall|a: int, b: int|
                0 <= a < x && 0 <= b < 256 ==> #[trigger] grid.cell(a, b) == 0x2001u32,
            cell_fields(1u32).material == 1,
            with_active(1u32, true) == 0x2001u32,
            with_material(0u32, 1u32) == 1u32,
        decreases 96 - x,
    {
        let mut y: i64 = 0;
        while y < 256
            invariant
                0 <= x < 96,
                0 <= y <= 256,
                sim.wf(),
                sim@.generation == old(sim)@.generation,
                sim@.materials == table,
                table.len() == 2,
                sim@.grid matches Some(grid) && grid.chunk_width == 3 && grid.chunk_height == 8
                    && forall|a: int, b: int|
                    (0 <= a < x && 0 <= b < 256) || (a == x && 0 <= b < y) ==> #[trigger] grid.cell(
                        a,
                        b,
                    ) == 0x2001u32,
                cell_fields(1u32).material == 1,
                with_active(1u32, true) == 0x2001u32,
                with_material(0u32, 1u32) == 1u32,
            decreases 256 - y,
        {
            let mut cell: u32 = 0;
            cell.set_material_idx(1);
            let ghost before = sim@.grid->0;
            proof {
                assert forall|a: int, b: int| before.in_bounds(a, b) implies #[trigger]
                    before.put_active(x as int, y as int, cell).cell(a, b) == if a == x && b == y {
                    0x2001u32
                } else {
                    before.cell(a, b)
                } by {
                    lemma_put_active_cell(before, x as int, y as int, cell, a, b);
                }
            }
            match set_cell_active(sim, x, y, cell) {
                Ok(()) => {},
                Err(e) => {
                    return Err(e);
                },
            }
            y = y + 1;
        }
        x = x + 1;
    }
    let ghost before = sim@.grid->0;
    proof {
        assert forall|a: int, b: int| before.in_bounds(a, b) implies #[trigger] before.put_active(
            48,
            128,
            0u32,
        ).cell(a, b) == if a == 48 && b == 128 {
            0x2000u32
        } else {
            before.cell(a, b)
        } by {
            lemma_put_active_cell(before, 48, 128, 0u32, a, b);
        }
    }
    set_cell_active(sim, 48, 128, 0)
}

} // verus!
