use rand_xoshiro::rand_core::SeedableRng;
use rand_xoshiro::Xoroshiro64StarStar;
use sand_kernel::cell::{CellTrait, CELL_ACTIVE_MASK, UPDATED_MASK};
use sand_kernel::grid::{CoordTrait, Grid};
use sand_kernel::material::{
    CellCollision, CellMovement, Material, Reaction, ReactionResult, PROBABILITY_ONE,
};
use sand_kernel::sweep::step_column;
use sand_kernel::visit::{apply_reaction, update_cell, CellVisit};

fn material(reactions_range: Vec<u64>, reactions: Vec<Reaction>) -> Material {
    Material {
        display_name: String::new(),
        color: (),
        movement: CellMovement::Solid,
        density: 0,
        durability: 0,
        collision: CellCollision::Solid,
        friction: 0,
        bounciness: 0,
        on_destroyed: (),
        reactions_range,
        reactions,
    }
}

/// Material 0 reacts with nothing. Material 1 turns a neighbour of
/// material 2 into material 3, and itself into material 2 next to
/// material 3.
fn chain() -> Vec<Material> {
    let spread = Reaction {
        probability: PROBABILITY_ONE,
        material_out1: None,
        material_out2: Some(3),
    };
    let fade = Reaction {
        probability: PROBABILITY_ONE,
        material_out1: Some(2),
        material_out2: None,
    };
    vec![
        material(Vec::new(), Vec::new()),
        material(vec![0, 1 << 32, 1 | (2 << 32)], vec![spread, fade]),
        material(Vec::new(), Vec::new()),
        material(Vec::new(), Vec::new()),
    ]
}

fn snapshot(grid: &Grid) -> (Vec<u32>, Vec<i64>) {
    let mut cells = Vec::new();
    for y in 0..grid.height() {
        for x in 0..grid.width() {
            cells.push(grid.get_cell(x, y));
        }
    }
    let mut chunks = Vec::new();
    for cx in 0..grid.chunk_width() {
        for cy in 0..grid.chunk_height() {
            chunks.push(grid.chunk(cx * 32, cy * 32));
        }
    }
    (cells, chunks)
}

#[test]
fn chunk_local_coordinate() {
    assert_eq!(0i64.to_chunk_local(), 0);
    assert_eq!(31i64.to_chunk_local(), 31);
    assert_eq!(32i64.to_chunk_local(), 0);
    assert_eq!(95i64.to_chunk_local(), 31);
    assert_eq!(1000i64.to_chunk_local(), 8);
}

#[test]
fn take_chunk_reads_and_zeroes() {
    let mut grid = Grid::default();
    grid.put_active(40, 70, 0);
    let word = grid.chunk(40, 70);
    assert_eq!(word, (1i64 << 40) | (1i64 << 6));
    assert_eq!(grid.take_chunk(33, 64), word);
    assert_eq!(grid.chunk(40, 70), 0);
    assert_eq!(grid.take_chunk(40, 70), 0);
    assert_eq!(grid.get_cell(40, 70), CELL_ACTIVE_MASK);
}

#[test]
fn store_and_read_cells() {
    let mut grid = Grid::default();
    grid.set_cell(3, 4, 0xDEAD_B005);
    assert_eq!(grid.get_cell(3, 4), 0xDEAD_B005);
    assert_eq!(grid.get_cell(4, 3), 0);
    assert_eq!(grid.chunk(3, 4), 0);
    grid.put_changed(95, 255, 7);
    assert_eq!(grid.get_cell(95, 255), 7 | CELL_ACTIVE_MASK);
    assert_eq!(grid.get_cell(94, 254), CELL_ACTIVE_MASK);
    assert_eq!(grid.get_cell(93, 255), 0);
    grid.force_active(200, 200);
    grid.force_active(-1, 0);
    grid.wake_neighbors(0, 255);
    assert_eq!(grid.get_cell(1, 254), CELL_ACTIVE_MASK);
    assert_eq!(grid.get_cell(0, 255), 0);
    assert!(grid.all_materials_below(8));
    assert!(!grid.all_materials_below(7));
}

#[test]
fn inactive_cell_is_left_alone() {
    let table = chain();
    let mut grid = Grid::default();
    grid.set_cell(40, 40, 1);
    let before = snapshot(&grid);
    let mut rng = Xoroshiro64StarStar::seed_from_u64(0);
    update_cell(&mut grid, &table, true, 40, 40, &mut rng);
    assert_eq!(snapshot(&grid), before);
}

#[test]
fn updated_cell_is_only_marked_again() {
    let table = chain();
    let mut grid = Grid::default();
    grid.put_active(40, 40, UPDATED_MASK);
    grid.take_chunk(40, 40);
    let mut rng = Xoroshiro64StarStar::seed_from_u64(0);
    update_cell(&mut grid, &table, true, 40, 40, &mut rng);
    assert_eq!(grid.get_cell(40, 40), UPDATED_MASK | CELL_ACTIVE_MASK);
    assert_eq!(grid.chunk(40, 40), (1i64 << (8 + 32)) | (1i64 << 8));
    assert_eq!(grid.get_cell(41, 40), 0);
}

#[test]
fn neighbour_is_replaced_and_woken() {
    let table = chain();
    let mut grid = Grid::default();
    // Material 1 in the middle, material 2 to the east.
    grid.put_active(40, 40, 1);
    grid.set_cell(41, 40, 2);
    let mut rng = Xoroshiro64StarStar::seed_from_u64(0);
    update_cell(&mut grid, &table, true, 40, 40, &mut rng);

    // The neighbour became material 3 and is active; so are the cells around it.
    assert_eq!(grid.get_cell(41, 40), 3 | CELL_ACTIVE_MASK);
    assert_eq!(grid.get_cell(42, 40), CELL_ACTIVE_MASK);
    assert_eq!(grid.get_cell(42, 39), CELL_ACTIVE_MASK);
    assert_eq!(grid.get_cell(42, 41), CELL_ACTIVE_MASK);
    assert_eq!(grid.get_cell(40, 41), CELL_ACTIVE_MASK);
    // The cell itself kept its material and was marked updated. No trial
    // was left waiting, so it goes inactive.
    assert_eq!(grid.get_cell(40, 40), 1 | UPDATED_MASK);
    // Nothing further away was touched.
    assert_eq!(grid.get_cell(43, 40), 0);
    assert_eq!(grid.get_cell(39, 40), 0);
    assert_eq!(grid.get_cell(40, 38), 0);
}

#[test]
fn later_trials_see_the_replaced_material() {
    let table = chain();
    let mut grid = Grid::default();
    // East is material 3, so the cell (material 1) fades into material 2;
    // north is material 2, which the cell would have turned into material 3
    // had it still been material 1.
    grid.put_active(40, 40, 1);
    grid.set_cell(41, 40, 3);
    grid.set_cell(40, 39, 2);
    let mut rng = Xoroshiro64StarStar::seed_from_u64(0);
    update_cell(&mut grid, &table, true, 40, 40, &mut rng);

    let cell = grid.get_cell(40, 40);
    assert_eq!(cell.material_idx(), 2);
    assert!(cell.is_active());
    assert!(cell.is_updated(true));
    // The neighbours were woken by the change, not replaced.
    assert_eq!(grid.get_cell(40, 39), 2 | CELL_ACTIVE_MASK);
    assert_eq!(grid.get_cell(41, 40), 3 | CELL_ACTIVE_MASK);
}

#[test]
fn cell_without_reactions_goes_inactive() {
    let table = chain();
    let mut grid = Grid::default();
    grid.put_active(40, 40, 3);
    grid.take_chunk(40, 40);
    let mut rng = Xoroshiro64StarStar::seed_from_u64(0);
    update_cell(&mut grid, &table, true, 40, 40, &mut rng);
    assert_eq!(grid.get_cell(40, 40), 3 | UPDATED_MASK);
    assert_eq!(grid.chunk(40, 40), 0);
}

#[test]
fn cell_at_the_border_has_fewer_neighbours() {
    let table = chain();
    let mut grid = Grid::default();
    grid.put_active(95, 0, 1);
    grid.set_cell(94, 0, 2);
    let mut rng = Xoroshiro64StarStar::seed_from_u64(0);
    update_cell(&mut grid, &table, true, 95, 0, &mut rng);
    // West is none of the four neighbours that a cell is tried against.
    assert_eq!(grid.get_cell(94, 0), 2);
    assert_eq!(grid.get_cell(95, 0), 1 | UPDATED_MASK);
}

#[test]
fn apply_reaction_by_result() {
    let mut grid = Grid::default();
    grid.set_cell(10, 10, 1);
    let visit = CellVisit { material: 5, active: false, changed: false };

    assert_eq!(apply_reaction(&mut grid, 10, 10, visit, ReactionResult::Inert), visit);
    assert_eq!(
        apply_reaction(&mut grid, 10, 10, visit, ReactionResult::CouldReact),
        CellVisit { material: 5, active: true, changed: false }
    );
    assert_eq!(grid.get_cell(10, 10), 1);

    let both = ReactionResult::Reacted { material_out1: Some(6), material_out2: Some(3) };
    assert_eq!(
        apply_reaction(&mut grid, 10, 10, visit, both),
        CellVisit { material: 6, active: false, changed: true }
    );
    let waiting = CellVisit { material: 5, active: true, changed: false };
    assert_eq!(
        apply_reaction(&mut grid, 10, 10, waiting, both),
        CellVisit { material: 6, active: true, changed: true }
    );
    assert_eq!(grid.get_cell(10, 10), 3 | CELL_ACTIVE_MASK);
    assert_eq!(grid.get_cell(11, 11), CELL_ACTIVE_MASK);

    let neither = ReactionResult::Reacted { material_out1: None, material_out2: None };
    let mut grid = Grid::default();
    assert_eq!(apply_reaction(&mut grid, 10, 10, visit, neither), visit);
    assert_eq!(grid.get_cell(10, 10), 0);
}

#[test]
fn strip_sweep_visits_active_cells_only() {
    let table = chain();
    let mut grid = Grid::default();
    // A cell that is not active is not visited, whatever its neighbours.
    grid.set_cell(40, 40, 1);
    grid.set_cell(41, 40, 2);
    let before = snapshot(&grid);
    step_column(&mut grid, &table, true, 1);
    assert_eq!(snapshot(&grid), before);

    // Once it is active, it is.
    grid.force_active(40, 40);
    step_column(&mut grid, &table, true, 1);
    assert_eq!(grid.get_cell(41, 40).material_idx(), 3);
    assert_eq!(grid.get_cell(40, 40), 1 | UPDATED_MASK);
}

#[test]
fn strip_sweep_leaves_the_other_strips() {
    let table = chain();
    let mut grid = Grid::default();
    grid.put_active(10, 40, 1);
    grid.set_cell(11, 40, 2);
    let before = snapshot(&grid);
    step_column(&mut grid, &table, true, 1);
    assert_eq!(snapshot(&grid), before);
    step_column(&mut grid, &table, true, 0);
    assert_eq!(grid.get_cell(11, 40).material_idx(), 3);
}

#[test]
fn strip_sweep_is_repeatable() {
    let half = Reaction {
        probability: PROBABILITY_ONE / 2,
        material_out1: None,
        material_out2: Some(1),
    };
    let table = vec![material(vec![1 << 32], vec![half]), material(Vec::new(), Vec::new())];
    let run = || {
        let mut grid = Grid::default();
        for x in 32..64 {
            for y in 0..64 {
                grid.put_active(x, y, 0);
            }
        }
        step_column(&mut grid, &table, true, 1);
        snapshot(&grid)
    };
    let first = run();
    assert_eq!(run(), first);
    assert!(first.0.iter().any(|cell| cell.material_idx() == 1));
    assert!(first.0.iter().any(|cell| cell.material_idx() == 0 && cell.is_active()));
}

#[test]
fn cell_that_replaced_only_its_neighbours_goes_inactive() {
    // Material 0 turns a neighbour of material 1 into material 2, for certain.
    let spread = Reaction {
        probability: PROBABILITY_ONE,
        material_out1: None,
        material_out2: Some(2),
    };
    let table = vec![
        material(vec![0, 1 << 32], vec![spread]),
        material(Vec::new(), Vec::new()),
        material(Vec::new(), Vec::new()),
    ];
    let mut grid = Grid::default();
    for x in 0..96 {
        for y in 0..256 {
            grid.set_cell(x, y, 1);
        }
    }
    grid.put_active(48, 48, UPDATED_MASK);
    let mut rng = Xoroshiro64StarStar::seed_from_u64(0);
    update_cell(&mut grid, &table, false, 48, 48, &mut rng);

    for (x, y) in [(49, 48), (47, 47), (48, 47), (49, 47)] {
        let cell = grid.get_cell(x, y);
        assert_eq!(cell.material_idx(), 2, "x: {}, y: {}", x, y);
        assert!(cell.is_active());
    }
    // Its own material did not change and no trial was left waiting.
    assert_eq!(grid.get_cell(48, 48), 0);
    assert_eq!(grid.get_cell(47, 48), 1 | CELL_ACTIVE_MASK);
}

#[test]
fn generator_is_untouched_where_nothing_is_tried() {
    let table = chain();
    let mut grid = Grid::default();
    let fresh = Xoroshiro64StarStar::seed_from_u64(9);

    // An inactive cell.
    grid.set_cell(40, 40, 1);
    grid.set_cell(41, 40, 2);
    let mut rng = fresh.clone();
    update_cell(&mut grid, &table, true, 40, 40, &mut rng);
    assert_eq!(rng, fresh);

    // An active cell that was updated in this generation.
    grid.put_active(40, 40, 1 | UPDATED_MASK);
    update_cell(&mut grid, &table, true, 40, 40, &mut rng);
    assert_eq!(rng, fresh);

    // An active cell without a neighbour to react with.
    grid.put_active(60, 60, 3);
    update_cell(&mut grid, &table, true, 60, 60, &mut rng);
    assert_eq!(rng, fresh);
    assert_eq!(grid.get_cell(60, 60), 3 | UPDATED_MASK);

    // An active cell with an uncertain reaction to try.
    let half = Reaction {
        probability: PROBABILITY_ONE / 2,
        material_out1: None,
        material_out2: Some(1),
    };
    let uncertain = vec![material(vec![1 << 32], vec![half]), material(Vec::new(), Vec::new())];
    let mut grid = Grid::default();
    grid.put_active(40, 40, 0);
    update_cell(&mut grid, &uncertain, true, 40, 40, &mut rng);
    assert_ne!(rng, fresh);
}
