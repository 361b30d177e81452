//! The visit of one cell: its trials against four of its neighbours, and
//! the commit of what they found.

use crate::activity::{
    beyond, lemma_covers_more_trans, lemma_mark_active_covers, lemma_put_active_covers,
    lemma_put_changed_cell, lemma_put_changed_covers, lemma_put_changed_elsewhere,
    lemma_same_cell, lemma_store_inactive_covers,
};
use crate::cell::{
    cell_fields, is_updated_in, lemma_with_active, lemma_with_material, lemma_with_updated,
    with_active, with_material, with_updated, CellTrait,
};
use crate::chunk::chunk_set_active;
use crate::grid::{
    lemma_offsets_bound, lemma_put_active_cell, lemma_put_active_known, lemma_put_changed_known,
    lemma_with_cell_known, Grid, GridView,
};
use crate::material::{
    can_win, candidate_reactions, possible_result, reactions_between, trial_result, valid_table,
    Material, ReactionResult,
};
use crate::phf_range::packed_start;
use crate::rng::SimRng;
use vstd::prelude::*;

verus! {

/// What the visit of a cell has found so far: the material the cell now
/// has, whether it stays active, and whether its material has changed.
#[derive(Clone, Copy, Debug, PartialEq, Eq, Structural)]
pub struct CellVisit {
    pub material: u32,
    pub active: bool,
    pub changed: bool,
}

/// The four neighbours that a cell is tried against: east, north-west,
/// north and north-east. Together with the visits of those neighbours
/// this tries every adjacent pair once.
pub open spec fn neighbor_offset(i: int) -> (int, int) {
    if i == 0 {
        (1, 0)
    } else if i == 1 {
        (-1, -1)
    } else if i == 2 {
        (0, -1)
    } else {
        (1, -1)
    }
}

/// Whether `(dx, dy)` is one of the four offsets that a cell is tried
/// against.
pub open spec fn is_neighbor_offset(dx: int, dy: int) -> bool {
    exists|i: int| 0 <= i < 4 && #[trigger] neighbor_offset(i) == (dx, dy)
}

/// The four offsets are one half of the eight around a cell: of any two
/// adjacent cells, exactly one is tried against the other.
pub proof fn lemma_half_neighborhood(dx: int, dy: int)
    requires
        -1 <= dx <= 1,
        -1 <= dy <= 1,
        dx != 0 || dy != 0,
    ensures
        is_neighbor_offset(dx, dy) != is_neighbor_offset(-dx, -dy),
{
    assert(neighbor_offset(0) == (1int, 0int));
    assert(neighbor_offset(1) == (-1int, -1int));
    assert(neighbor_offset(2) == (0int, -1int));
    assert(neighbor_offset(3) == (1int, -1int));
}

/// The grid after a trial with the neighbour at `(nx, ny)` ended in
/// `result`: a replaced neighbour is stored as a changed cell.
pub open spec fn neighbor_after(grid: GridView, nx: int, ny: int, result: ReactionResult) -> GridView {
    match result {
        ReactionResult::Reacted { material_out1: _, material_out2: Some(out2) } => grid.put_changed(
            nx,
            ny,
            with_material(grid.cell(nx, ny), out2),
        ),
        _ => grid,
    }
}

/// The visit after a trial ended in `result`. A trial that could react
/// but did not keeps the cell active, to be tried again in the next
/// generation. A reaction that fired does not: it marks the cell as
/// changed where it replaces the cell itself, and that replacement is the
/// material that the trials after it see.
pub open spec fn visit_after(visit: CellVisit, result: ReactionResult) -> CellVisit {
    match result {
        ReactionResult::Inert => visit,
        ReactionResult::CouldReact => CellVisit { active: true, ..visit },
        ReactionResult::Reacted { material_out1, material_out2: _ } => CellVisit {
            material: match material_out1 {
                Some(out1) => out1,
                None => visit.material,
            },
            active: visit.active,
            changed: visit.changed || material_out1 is Some,
        },
    }
}

/// Whether the trial with the neighbour at `(nx, ny)` can end in
/// `result`. A position outside the grid holds no neighbour, and the
/// trial is `Inert`.
pub open spec fn trial_possible(
    grid: GridView,
    materials: Seq<Material>,
    visit: CellVisit,
    nx: int,
    ny: int,
    result: ReactionResult,
) -> bool {
    if grid.in_bounds(nx, ny) {
        let other = cell_fields(grid.cell(nx, ny)).material;
        possible_result(
            candidate_reactions(
                visit.material,
                other,
                materials[visit.material as int],
                materials[other as int],
            ),
            visit.material > other,
            result,
        )
    } else {
        result == ReactionResult::Inert
    }
}

/// Whether the trial with the neighbour at `(nx, ny)` draws from the
/// generator: there is a neighbour, and there are reactions to try.
pub open spec fn trial_draws(
    grid: GridView,
    materials: Seq<Material>,
    visit: CellVisit,
    nx: int,
    ny: int,
) -> bool {
    grid.in_bounds(nx, ny) && candidate_reactions(
        visit.material,
        cell_fields(grid.cell(nx, ny)).material,
        materials[visit.material as int],
        materials[cell_fields(grid.cell(nx, ny)).material as int],
    ).len() > 0
}

/// Whether none of the four trials of the visit of `(x, y)` draws from
/// the generator: the cell has no neighbour to react with.
pub open spec fn visit_is_quiet(grid: GridView, materials: Seq<Material>, x: int, y: int) -> bool {
    forall|i: int|
        0 <= i < 4 ==> !trial_draws(
            grid,
            materials,
            CellVisit {
                material: cell_fields(grid.cell(x, y)).material,
                active: false,
                changed: false,
            },
            x + (#[trigger] neighbor_offset(i)).0,
            y + neighbor_offset(i).1,
        )
}

/// Grid and visit in the course of one cell's visit.
pub struct VisitState {
    pub grid: GridView,
    pub visit: CellVisit,
}

/// The state of the visit of `(x, y)` after its first `i` trials ended
/// in `results[0]` to `results[i - 1]`.
pub open spec fn visit_state(
    grid: GridView,
    x: int,
    y: int,
    results: Seq<ReactionResult>,
    i: int,
) -> VisitState
    decreases i,
{
    if i <= 0 {
        VisitState {
            grid,
            visit: CellVisit {
                material: cell_fields(grid.cell(x, y)).material,
                active: false,
                changed: false,
            },
        }
    } else {
        let before = visit_state(grid, x, y, results, i - 1);
        VisitState {
            grid: neighbor_after(
                before.grid,
                x + neighbor_offset(i - 1).0,
                y + neighbor_offset(i - 1).1,
                results[i - 1],
            ),
            visit: visit_after(before.visit, results[i - 1]),
        }
    }
}

/// Whether the four trials of the visit of `(x, y)` can end in `results`,
/// each tried in the state that the trials before it left.
pub open spec fn trials_possible(
    grid: GridView,
    materials: Seq<Material>,
    x: int,
    y: int,
    results: Seq<ReactionResult>,
) -> bool {
    &&& results.len() == 4
    &&& forall|i: int|
        0 <= i < 4 ==> trial_possible(
            (#[trigger] visit_state(grid, x, y, results, i)).grid,
            materials,
            visit_state(grid, x, y, results, i).visit,
            x + neighbor_offset(i).0,
            y + neighbor_offset(i).1,
            results[i],
        )
}

/// The grid after the visit of `(x, y)` was committed. The cell, which
/// was `cell` before the visit, gets the visit's material and is marked
/// updated. Where its material changed it is stored as a changed cell;
/// else, where a trial could react, as an active cell; else as an
/// inactive one.
pub open spec fn committed(
    state: VisitState,
    x: int,
    y: int,
    cell: u32,
    generation: bool,
) -> GridView {
    let updated = with_updated(with_material(cell, state.visit.material), generation);
    if state.visit.changed {
        state.grid.put_changed(x, y, updated)
    } else if state.visit.active {
        state.grid.put_active(x, y, updated)
    } else {
        state.grid.with_cell(x, y, with_active(updated, false))
    }
}

/// The grid after the visit of `(x, y)` whose trials ended in `results`.
/// An inactive cell is left alone, and so is the grid. An active cell that
/// was updated in this generation has its chunk marked again. Any other
/// active cell is tried against its neighbours and committed.
pub open spec fn cell_visited(
    grid: GridView,
    generation: bool,
    x: int,
    y: int,
    results: Seq<ReactionResult>,
) -> GridView {
    let cell = grid.cell(x, y);
    if !cell_fields(cell).active {
        grid
    } else if is_updated_in(cell, generation) {
        grid.mark_active(x, y)
    } else {
        committed(visit_state(grid, x, y, results, 4), x, y, cell, generation)
    }
}

/// Whether `after` is a grid that the visit of `(x, y)` can make of
/// `before`: the visit's result for some results that its trials can
/// have.
pub open spec fn visit_relates(
    before: GridView,
    after: GridView,
    materials: Seq<Material>,
    generation: bool,
    x: int,
    y: int,
) -> bool {
    exists|results: Seq<ReactionResult>|
        {
            &&& cell_fields(before.cell(x, y)).active && !is_updated_in(before.cell(x, y), generation)
                ==> trials_possible(before, materials, x, y, results)
            &&& after == #[trigger] cell_visited(before, generation, x, y, results)
        }
}

/// Applies the result of a trial to the neighbour at `(nx, ny)` and to
/// the visit.
pub fn apply_reaction(
    grid: &mut Grid,
    nx: i64,
    ny: i64,
    visit: CellVisit,
    result: ReactionResult,
) -> (next: CellVisit)
    requires
        old(grid).wf(),
        old(grid)@.in_bounds(nx as int, ny as int),
    ensures
        final(grid)@ == neighbor_after(old(grid)@, nx as int, ny as int, result),
        next == visit_after(visit, result),
        final(grid).wf(),
{
    match result {
        ReactionResult::Inert => visit,
        ReactionResult::CouldReact => CellVisit {
            material: visit.material,
            active: true,
            changed: visit.changed,
        },
        ReactionResult::Reacted { material_out1, material_out2 } => {
            if let Some(out2) = material_out2 {
                let mut n_cell = grid.get_cell(nx, ny);
                n_cell.set_material_idx(out2);
                grid.put_changed(nx, ny, n_cell);
            }
            match material_out1 {
                Some(out1) => CellVisit { material: out1, active: visit.active, changed: true },
                None => visit,
            }
        },
    }
}

/// A replacement that a valid table lets a trial produce is a material of
/// the table.
proof fn lemma_result_within(
    materials: Seq<Material>,
    material: u32,
    other: u32,
    result: ReactionResult,
)
    requires
        valid_table(materials),
        material < materials.len(),
        other < materials.len(),
        possible_result(
            candidate_reactions(
                material,
                other,
                materials[material as int],
                materials[other as int],
            ),
            material > other,
            result,
        ),
    ensures
        result matches ReactionResult::Reacted { material_out1: Some(out1), material_out2: _ }
            ==> out1 < materials.len(),
        result matches ReactionResult::Reacted { material_out1: _, material_out2: Some(out2) }
            ==> out2 < materials.len(),
{
    let source = if material <= other {
        materials[material as int]
    } else {
        materials[other as int]
    };
    let distance: int = if material <= other {
        other - material
    } else {
        material - other
    };
    let candidates = candidate_reactions(
        material,
        other,
        materials[material as int],
        materials[other as int],
    );
    assert(source.wf() && source.outputs_below(materials.len() as int));
    if let ReactionResult::Reacted { material_out1, material_out2 } = result {
        let winner = choose|winner: Option<int>| #[trigger]
            can_win(candidates, winner) && result
                == trial_result(candidates, winner, material > other);
        assert(candidates.len() > 0);
        let k = winner->0;
        assert(distance < source.reactions_range@.len());
        let start = packed_start(source.reactions_range@[distance]);
        assert(candidates[k] == source.reactions@[start + k]);
    }
}

/// Tries the cell being visited against its neighbour at
/// `(x + dx, y + dy)`, and applies the result. A position outside the
/// grid holds no neighbour: nothing is tried and nothing changes.
fn try_neighbor(
    grid: &mut Grid,
    materials: &Vec<Material>,
    x: i64,
    y: i64,
    dx: i64,
    dy: i64,
    visit: CellVisit,
    rng: &mut SimRng,
) -> (out: (CellVisit, ReactionResult))
    requires
        old(grid).wf(),
        old(grid)@.in_bounds(x as int, y as int),
        -1 <= dx <= 1,
        -1 <= dy <= 1,
        valid_table(materials@),
        old(grid)@.materials_below(materials@.len() as int),
        visit.material < materials@.len(),
    ensures
        trial_possible(old(grid)@, materials@, visit, x + dx, y + dy, out.1),
        final(grid)@ == neighbor_after(old(grid)@, x + dx, y + dy, out.1),
        out.0 == visit_after(visit, out.1),
        final(grid).wf(),
        final(grid)@.same_shape(old(grid)@),
        final(grid)@.materials_below(materials@.len() as int),
        old(grid)@.covers_more(final(grid)@),
        out.0.material < materials@.len(),
        !trial_draws(old(grid)@, materials@, visit, x + dx, y + dy) ==> *final(rng) == *old(rng),
{
    let nx = x + dx;
    let ny = y + dy;
    if !grid.in_bounds(nx, ny) {
        return (visit, ReactionResult::Inert);
    }
    let n_cell = grid.get_cell(nx, ny);
    let mat_idx2 = n_cell.material_idx();
    proof {
        lemma_offsets_bound(grid@, nx as int, ny as int);
    }
    let mat1 = &materials[visit.material as usize];
    let mat2 = &materials[mat_idx2 as usize];
    let result = reactions_between(visit.material, mat_idx2, mat1, mat2, rng);
    proof {
        lemma_result_within(materials@, visit.material, mat_idx2, result);
        if let ReactionResult::Reacted { material_out1: _, material_out2: Some(out2) } = result {
            lemma_with_material(n_cell, out2);
            lemma_put_changed_known(
                grid@,
                nx as int,
                ny as int,
                with_material(n_cell, out2),
                materials@.len() as int,
            );
            lemma_put_changed_covers(grid@, nx as int, ny as int, with_material(n_cell, out2));
        }
    }
    let next = apply_reaction(grid, nx, ny, visit, result);
    (next, result)
}

/// Visits the cell at `(x, y)`.
///
/// An inactive cell is left alone. An active cell that was updated in
/// this generation only has its chunk marked again. Any other active
/// cell is tried against its four neighbours in turn and then committed.
/// Nothing is drawn from the generator but in a trial that has reactions
/// to try.
pub fn update_cell(
    grid: &mut Grid,
    materials: &Vec<Material>,
    generation: bool,
    x: i64,
    y: i64,
    rng: &mut SimRng,
)
    requires
        old(grid).wf(),
        old(grid)@.in_bounds(x as int, y as int),
        valid_table(materials@),
        old(grid)@.materials_below(materials@.len() as int),
    ensures
        final(grid).wf(),
        final(grid)@.same_shape(old(grid)@),
        final(grid)@.materials_below(materials@.len() as int),
        old(grid)@.covers_more(final(grid)@),
        final(grid)@.cell_covered(x as int, y as int),
        visit_relates(old(grid)@, final(grid)@, materials@, generation, x as int, y as int),
        !cell_fields(old(grid)@.cell(x as int, y as int)).active || is_updated_in(
            old(grid)@.cell(x as int, y as int),
            generation,
        ) || visit_is_quiet(old(grid)@, materials@, x as int, y as int) ==> *final(rng) == *old(
            rng,
        ),
{
    let mut cell = grid.get_cell(x, y);
    if !cell.is_active() {
        assert(grid@ == cell_visited(grid@, generation, x as int, y as int, Seq::empty()));
        return;
    }
    if cell.is_updated(generation) {
        proof {
            lemma_mark_active_covers(grid@, x as int, y as int);
            assert(grid@.mark_active(x as int, y as int) == cell_visited(
                grid@,
                generation,
                x as int,
                y as int,
                Seq::empty(),
            ));
        }
        chunk_set_active(grid, x, y);
        return;
    }
    let ghost grid0 = grid@;
    let ghost cell0 = cell;
    proof {
        lemma_offsets_bound(grid@, x as int, y as int);
    }
    let v0 = CellVisit { material: cell.material_idx(), active: false, changed: false };
    let (v1, r0) = try_neighbor(grid, materials, x, y, 1, 0, v0, rng);
    let ghost grid1 = grid@;
    let (v2, r1) = try_neighbor(grid, materials, x, y, -1, -1, v1, rng);
    let ghost grid2 = grid@;
    let (v3, r2) = try_neighbor(grid, materials, x, y, 0, -1, v2, rng);
    let ghost grid3 = grid@;
    let (v4, r3) = try_neighbor(grid, materials, x, y, 1, -1, v3, rng);
    let ghost grid4 = grid@;
    let ghost results = seq![r0, r1, r2, r3];
    proof {
        reveal_with_fuel(visit_state, 5);
        let xi = x as int;
        let yi = y as int;
        assert(visit_state(grid0, xi, yi, results, 0) == VisitState { grid: grid0, visit: v0 });
        assert(visit_state(grid0, xi, yi, results, 1) == VisitState { grid: grid1, visit: v1 });
        assert(visit_state(grid0, xi, yi, results, 2) == VisitState { grid: grid2, visit: v2 });
        assert(visit_state(grid0, xi, yi, results, 3) == VisitState { grid: grid3, visit: v3 });
        assert(visit_state(grid0, xi, yi, results, 4) == VisitState { grid: grid4, visit: v4 });
        assert(trials_possible(grid0, materials@, xi, yi, results));
        lemma_covers_more_trans(grid0, grid1, grid2);
        lemma_covers_more_trans(grid0, grid2, grid3);
        lemma_covers_more_trans(grid0, grid3, grid4);
    }
    cell.set_material_idx(v4.material);
    cell.set_updated(generation);
    proof {
        lemma_with_material(cell0, v4.material);
        lemma_with_updated(with_material(cell0, v4.material), generation);
        lemma_with_active(cell, false);
    }
    if v4.changed {
        proof {
            lemma_put_changed_known(grid@, x as int, y as int, cell, materials@.len() as int);
            lemma_put_changed_covers(grid@, x as int, y as int, cell);
            lemma_covers_more_trans(grid0, grid4, grid4.put_changed(x as int, y as int, cell));
        }
        grid.put_changed(x, y, cell);
    } else if v4.active {
        proof {
            lemma_put_active_known(grid@, x as int, y as int, cell, materials@.len() as int);
            lemma_put_active_covers(grid@, x as int, y as int, cell);
            lemma_covers_more_trans(grid0, grid4, grid4.put_active(x as int, y as int, cell));
        }
        grid.put_active(x, y, cell);
    } else {
        proof {
            lemma_with_cell_known(
                grid@,
                x as int,
                y as int,
                with_active(cell, false),
                materials@.len() as int,
            );
            lemma_store_inactive_covers(grid@, x as int, y as int, with_active(cell, false));
            lemma_covers_more_trans(
                grid0,
                grid4,
                grid4.with_cell(x as int, y as int, with_active(cell, false)),
            );
        }
        cell.set_active(false);
        grid.set_cell(x, y, cell);
    }
    assert(grid@ == cell_visited(grid0, generation, x as int, y as int, results));
}

/// A trial changes no cell that is more than one cell away from the
/// neighbour it is made with.
proof fn lemma_trial_elsewhere(
    grid: GridView,
    nx: int,
    ny: int,
    result: ReactionResult,
    a: int,
    b: int,
)
    requires
        grid.wf(),
        grid.in_bounds(a, b),
        beyond(nx, ny, a, b, 1),
        grid.in_bounds(nx, ny) || result == ReactionResult::Inert,
    ensures
        neighbor_after(grid, nx, ny, result).wf(),
        neighbor_after(grid, nx, ny, result).same_shape(grid),
        neighbor_after(grid, nx, ny, result).cell(a, b) == grid.cell(a, b),
{
    if let ReactionResult::Reacted { material_out1: _, material_out2: Some(out2) } = result {
        let cell = with_material(grid.cell(nx, ny), out2);
        lemma_put_changed_covers(grid, nx, ny, cell);
        lemma_put_changed_elsewhere(grid, nx, ny, cell, a, b);
    }
}

/// The visit of a cell is local: it changes no cell that is more than two
/// cells away from the visited one.
pub proof fn lemma_visit_is_local(
    before: GridView,
    after: GridView,
    materials: Seq<Material>,
    generation: bool,
    x: int,
    y: int,
    a: int,
    b: int,
)
    requires
        before.wf(),
        before.in_bounds(x, y),
        before.in_bounds(a, b),
        beyond(x, y, a, b, 2),
        visit_relates(before, after, materials, generation, x, y),
    ensures
        after.cell(a, b) == before.cell(a, b),
{
    let results = choose|results: Seq<ReactionResult>|
        {
            &&& cell_fields(before.cell(x, y)).active && !is_updated_in(before.cell(x, y), generation)
                ==> trials_possible(before, materials, x, y, results)
            &&& after == #[trigger] cell_visited(before, generation, x, y, results)
        };
    let cell = before.cell(x, y);
    if cell_fields(cell).active && !is_updated_in(cell, generation) {
        reveal_with_fuel(visit_state, 5);
        let s0 = visit_state(before, x, y, results, 0);
        let s1 = visit_state(before, x, y, results, 1);
        let s2 = visit_state(before, x, y, results, 2);
        let s3 = visit_state(before, x, y, results, 3);
        let s4 = visit_state(before, x, y, results, 4);
        lemma_trial_elsewhere(s0.grid, x + 1, y, results[0], a, b);
        lemma_trial_elsewhere(s1.grid, x - 1, y - 1, results[1], a, b);
        lemma_trial_elsewhere(s2.grid, x, y - 1, results[2], a, b);
        lemma_trial_elsewhere(s3.grid, x + 1, y - 1, results[3], a, b);
        let updated = with_updated(with_material(cell, s4.visit.material), generation);
        if s4.visit.changed {
            lemma_put_changed_elsewhere(s4.grid, x, y, updated, a, b);
        } else if s4.visit.active {
            lemma_put_active_cell(s4.grid, x, y, updated, a, b);
        } else {
            lemma_offsets_bound(s4.grid, x, y);
            lemma_offsets_bound(s4.grid, a, b);
            lemma_same_cell(s4.grid, x, y, a, b);
        }
    }
}

/// A trial leaves the grid in its shape.
proof fn lemma_trial_keeps_shape(grid: GridView, nx: int, ny: int, result: ReactionResult)
    requires
        grid.wf(),
        grid.in_bounds(nx, ny) || result == ReactionResult::Inert,
    ensures
        neighbor_after(grid, nx, ny, result).wf(),
        neighbor_after(grid, nx, ny, result).same_shape(grid),
{
    if let ReactionResult::Reacted { material_out1: _, material_out2: Some(out2) } = result {
        lemma_put_changed_covers(grid, nx, ny, with_material(grid.cell(nx, ny), out2));
    }
}

/// Within a generation a cell is tried once: a second visit of the same
/// cell changes no cell.
pub proof fn lemma_second_visit_keeps_cells(
    before: GridView,
    mid: GridView,
    after: GridView,
    materials: Seq<Material>,
    generation: bool,
    x: int,
    y: int,
)
    requires
        before.wf(),
        before.in_bounds(x, y),
        visit_relates(before, mid, materials, generation, x, y),
        visit_relates(mid, after, materials, generation, x, y),
    ensures
        after.cells == mid.cells,
{
    let first = choose|results: Seq<ReactionResult>|
        {
            &&& cell_fields(before.cell(x, y)).active && !is_updated_in(before.cell(x, y), generation)
                ==> trials_possible(before, materials, x, y, results)
            &&& mid == #[trigger] cell_visited(before, generation, x, y, results)
        };
    let second = choose|results: Seq<ReactionResult>|
        {
            &&& cell_fields(mid.cell(x, y)).active && !is_updated_in(mid.cell(x, y), generation)
                ==> trials_possible(mid, materials, x, y, results)
            &&& after == #[trigger] cell_visited(mid, generation, x, y, results)
        };
    let cell = before.cell(x, y);
    lemma_offsets_bound(before, x, y);
    if cell_fields(cell).active && !is_updated_in(cell, generation) {
        reveal_with_fuel(visit_state, 5);
        let s0 = visit_state(before, x, y, first, 0);
        let s1 = visit_state(before, x, y, first, 1);
        let s2 = visit_state(before, x, y, first, 2);
        let s3 = visit_state(before, x, y, first, 3);
        let s4 = visit_state(before, x, y, first, 4);
        lemma_trial_keeps_shape(s0.grid, x + 1, y, first[0]);
        lemma_trial_keeps_shape(s1.grid, x - 1, y - 1, first[1]);
        lemma_trial_keeps_shape(s2.grid, x, y - 1, first[2]);
        lemma_trial_keeps_shape(s3.grid, x + 1, y - 1, first[3]);
        let updated = with_updated(with_material(cell, s4.visit.material), generation);
        lemma_with_updated(with_material(cell, s4.visit.material), generation);
        lemma_with_active(updated, true);
        lemma_with_active(updated, false);
        lemma_offsets_bound(s4.grid, x, y);
        if s4.visit.changed {
            lemma_put_changed_cell(s4.grid, x, y, updated);
            lemma_put_changed_covers(s4.grid, x, y, updated);
        } else if s4.visit.active {
            lemma_put_active_cell(s4.grid, x, y, updated, x, y);
            lemma_put_active_covers(s4.grid, x, y, updated);
        }
    }
}

} // verus!
