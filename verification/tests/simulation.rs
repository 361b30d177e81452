use sand_kernel::cell::{CellTrait, CELL_ACTIVE_MASK};
use sand_kernel::error::SimError;
use sand_kernel::grid::{Grid, MAX_CHUNK_COUNT};
use sand_kernel::material::{
    CellCollision, CellMovement, Material, Reaction, PROBABILITY_ONE,
};
use sand_kernel::simulation::{
    force_active, free_grid, get_cell, is_grid_initialized, load_materials, new_empty_grid,
    new_test_grid_with_materials, set_cell_active, set_cell_changed, set_cell_neightbor_active,
    step_generation, Simulation,
};

fn material(name: &str, reactions_range: Vec<u64>, reactions: Vec<Reaction>) -> Material {
    Material {
        display_name: name.to_string(),
        color: (),
        movement: CellMovement::Solid,
        density: 0,
        durability: 0,
        collision: CellCollision::Solid,
        friction: 0,
        bounciness: 0,
        on_destroyed: (),
        reactions_range,
        reactions,
    }
}

/// Material 0 is inert. Material 1 turns into material 0 next to material
/// 0, with the given probability.
fn inert_and_reactive(probability: u32) -> Vec<Material> {
    let decay = Reaction { probability, material_out1: None, material_out2: Some(0) };
    vec![material("inert", vec![0, 1 << 32], vec![decay]), material("reactive", vec![0], Vec::new())]
}

fn simulation(width: i64, height: i64, probability: u32) -> Simulation {
    let mut sim = Simulation::new();
    load_materials(&mut sim, inert_and_reactive(probability)).unwrap();
    new_empty_grid(&mut sim, width, height).unwrap();
    sim
}

fn chunk_word(sim: &Simulation, x: i64, y: i64) -> i64 {
    sim.grid().unwrap().chunk(x, y)
}

#[test]
fn grid_is_rounded_to_whole_chunks() {
    let sim = simulation(96, 96, 0);
    let grid = sim.grid().unwrap();
    assert_eq!(grid.width(), 96);
    assert_eq!(grid.height(), 256);
    assert_eq!(grid.chunk_width(), 3);
    assert_eq!(grid.chunk_height(), 8);

    let sim = simulation(97, 257, 0);
    let grid = sim.grid().unwrap();
    assert_eq!(grid.width(), 128);
    assert_eq!(grid.height(), 512);

    let sim = simulation(1, 1, 0);
    let grid = sim.grid().unwrap();
    assert_eq!((grid.width(), grid.height()), (96, 256));

    let sim = simulation(320, 300, 0);
    let grid = sim.grid().unwrap();
    assert_eq!((grid.chunk_width(), grid.chunk_height()), (10, 16));
}

#[test]
fn new_grid_is_zeroed() {
    let sim = simulation(96, 96, 0);
    for x in 0..96 {
        for y in 0..256 {
            assert_eq!(get_cell(&sim, x, y), Ok(0));
        }
    }
    for cx in 0..3 {
        for cy in 0..8 {
            assert_eq!(chunk_word(&sim, cx * 32, cy * 32), 0);
        }
    }
}

#[test]
fn invalid_dimensions_are_refused() {
    let mut sim = Simulation::new();
    load_materials(&mut sim, inert_and_reactive(0)).unwrap();
    assert_eq!(new_empty_grid(&mut sim, 0, 0), Err(SimError::InvalidDimensions));
    assert_eq!(new_empty_grid(&mut sim, -5, 96), Err(SimError::InvalidDimensions));
    assert_eq!(new_empty_grid(&mut sim, 96, 0), Err(SimError::InvalidDimensions));
    // 32769 by 8 chunks are more chunks than a grid may hold.
    assert_eq!(new_empty_grid(&mut sim, 32768 * 32 + 1, 96), Err(SimError::InvalidDimensions));
    assert_eq!(new_empty_grid(&mut sim, i64::MAX, 96), Err(SimError::InvalidDimensions));
    assert_eq!(new_empty_grid(&mut sim, 96, i64::MAX), Err(SimError::InvalidDimensions));
    assert_eq!(new_empty_grid(&mut sim, i64::MAX, i64::MAX), Err(SimError::InvalidDimensions));
    assert!(!is_grid_initialized(&sim));
    // A long side is accepted where the grid as a whole is small enough.
    assert_eq!(new_empty_grid(&mut sim, 600 * 32, 96), Ok(()));
    assert_eq!(sim.grid().unwrap().chunk_width(), 600);
    assert_eq!(sim.grid().unwrap().chunk_height(), 8);
    assert_eq!(get_cell(&sim, 600 * 32 - 1, 255), Ok(0));
    free_grid(&mut sim);
    assert_eq!(new_empty_grid(&mut sim, 96, 96), Ok(()));
    // A refused request leaves the grid that is there.
    assert_eq!(new_empty_grid(&mut sim, 0, 96), Err(SimError::InvalidDimensions));
    assert!(is_grid_initialized(&sim));
}

#[test]
fn grid_needs_a_material_for_its_cells() {
    let mut sim = Simulation::new();
    assert_eq!(new_empty_grid(&mut sim, 96, 96), Err(SimError::UnknownMaterial));
    assert!(!is_grid_initialized(&sim));
}

#[test]
fn operations_without_a_grid_are_refused() {
    let mut sim = Simulation::new();
    load_materials(&mut sim, inert_and_reactive(0)).unwrap();
    assert!(!is_grid_initialized(&sim));
    assert_eq!(get_cell(&sim, 0, 0), Err(SimError::NotInitialized));
    assert_eq!(set_cell_active(&mut sim, 0, 0, 0), Err(SimError::NotInitialized));
    assert_eq!(set_cell_changed(&mut sim, 0, 0, 0), Err(SimError::NotInitialized));
    assert_eq!(force_active(&mut sim, 0, 0), Err(SimError::NotInitialized));
    assert_eq!(set_cell_neightbor_active(&mut sim, 0, 0), Err(SimError::NotInitialized));
    assert_eq!(step_generation(&mut sim), Err(SimError::NotInitialized));

    new_empty_grid(&mut sim, 96, 96).unwrap();
    assert!(is_grid_initialized(&sim));
    free_grid(&mut sim);
    assert!(!is_grid_initialized(&sim));
    assert_eq!(get_cell(&sim, 0, 0), Err(SimError::NotInitialized));
    // Freeing twice is harmless.
    free_grid(&mut sim);
    assert!(!is_grid_initialized(&sim));
}

#[test]
fn positions_outside_the_grid_are_refused() {
    let mut sim = simulation(96, 96, 0);
    assert_eq!(get_cell(&sim, -1, 0), Err(SimError::OutOfBounds));
    assert_eq!(get_cell(&sim, 96, 0), Err(SimError::OutOfBounds));
    assert_eq!(get_cell(&sim, 0, 256), Err(SimError::OutOfBounds));
    assert_eq!(get_cell(&sim, 95, 255), Ok(0));
    assert_eq!(set_cell_active(&mut sim, 96, 0, 0), Err(SimError::OutOfBounds));
    assert_eq!(set_cell_changed(&mut sim, 0, -1, 0), Err(SimError::OutOfBounds));
    assert_eq!(force_active(&mut sim, 0, 256), Err(SimError::OutOfBounds));
    assert_eq!(set_cell_neightbor_active(&mut sim, -1, -1), Err(SimError::OutOfBounds));
}

#[test]
fn unknown_material_is_refused() {
    let mut sim = simulation(96, 96, 0);
    assert_eq!(set_cell_active(&mut sim, 5, 5, 2), Err(SimError::UnknownMaterial));
    assert_eq!(set_cell_changed(&mut sim, 5, 5, 0xFFF), Err(SimError::UnknownMaterial));
    assert_eq!(get_cell(&sim, 5, 5), Ok(0));
    assert_eq!(set_cell_active(&mut sim, 5, 5, 1), Ok(()));

    // A cell of material 1 is in the grid: a table of one material lacks it.
    let one = vec![material("only", Vec::new(), Vec::new())];
    assert_eq!(load_materials(&mut sim, one), Err(SimError::UnknownMaterial));
    assert_eq!(sim.materials().len(), 2);
}

#[test]
fn invalid_material_table_is_refused() {
    let mut sim = Simulation::new();
    let stray = Reaction { probability: 1, material_out1: Some(5), material_out2: None };
    let table = vec![material("stray", vec![1 << 32], vec![stray])];
    assert_eq!(load_materials(&mut sim, table), Err(SimError::InvalidMaterial));
    let long = vec![material("long", vec![2 << 32], Vec::new())];
    assert_eq!(load_materials(&mut sim, long), Err(SimError::InvalidMaterial));
    let many: Vec<Material> =
        (0..4097).map(|_| material("many", Vec::new(), Vec::new())).collect();
    assert_eq!(load_materials(&mut sim, many), Err(SimError::InvalidMaterial));
    assert_eq!(sim.materials().len(), 0);
    let full: Vec<Material> = (0..4096).map(|_| material("full", Vec::new(), Vec::new())).collect();
    assert_eq!(load_materials(&mut sim, full), Ok(()));
    assert_eq!(sim.materials().len(), 4096);
}

#[test]
fn set_cell_active_marks_cell_and_chunk() {
    let mut sim = simulation(96, 96, 0);
    set_cell_active(&mut sim, 40, 70, 1).unwrap();
    assert_eq!(get_cell(&sim, 40, 70), Ok(1 | CELL_ACTIVE_MASK));
    // Local column 8 and local row 6 of chunk (1, 2).
    assert_eq!(chunk_word(&sim, 40, 70), (1i64 << (8 + 32)) | (1i64 << 6));
    assert_eq!(chunk_word(&sim, 0, 70), 0);
    assert_eq!(chunk_word(&sim, 40, 0), 0);
    assert_eq!(get_cell(&sim, 41, 70), Ok(0));
}

#[test]
fn set_cell_changed_wakes_the_eight_neighbours() {
    let mut sim = simulation(96, 96, 0);
    set_cell_changed(&mut sim, 40, 70, 1).unwrap();
    for x in 38..43 {
        for y in 68..73 {
            let expected = if (x, y) == (40, 70) {
                1 | CELL_ACTIVE_MASK
            } else if (39..=41).contains(&x) && (69..=71).contains(&y) {
                CELL_ACTIVE_MASK
            } else {
                0
            };
            assert_eq!(get_cell(&sim, x, y), Ok(expected), "x: {}, y: {}", x, y);
        }
    }
    let columns = (1i64 << (7 + 32)) | (1i64 << (8 + 32)) | (1i64 << (9 + 32));
    let rows = (1i64 << 5) | (1i64 << 6) | (1i64 << 7);
    assert_eq!(chunk_word(&sim, 40, 70), columns | rows);
}

#[test]
fn waking_crosses_chunk_borders_and_stops_at_the_grid_border() {
    let mut sim = simulation(96, 96, 0);
    set_cell_neightbor_active(&mut sim, 32, 32).unwrap();
    assert_eq!(get_cell(&sim, 32, 32), Ok(0));
    assert_eq!(get_cell(&sim, 31, 31), Ok(CELL_ACTIVE_MASK));
    assert_eq!(chunk_word(&sim, 31, 31), (1i64 << 63) | (1i64 << 31));
    assert_eq!(chunk_word(&sim, 32, 31), (1i64 << 32) | (1i64 << 33) | (1i64 << 31));
    assert_eq!(chunk_word(&sim, 31, 32), (1i64 << 63) | 1 | 2);
    assert_eq!(chunk_word(&sim, 32, 32), (1i64 << 32) | (1i64 << 33) | 1 | 2);

    let mut sim = simulation(96, 96, 0);
    set_cell_neightbor_active(&mut sim, 0, 0).unwrap();
    assert_eq!(get_cell(&sim, 1, 0), Ok(CELL_ACTIVE_MASK));
    assert_eq!(get_cell(&sim, 0, 1), Ok(CELL_ACTIVE_MASK));
    assert_eq!(get_cell(&sim, 1, 1), Ok(CELL_ACTIVE_MASK));
    assert_eq!(get_cell(&sim, 0, 0), Ok(0));
    assert_eq!(chunk_word(&sim, 0, 0), (1i64 << 32) | (1i64 << 33) | 1 | 2);
}

#[test]
fn force_active_keeps_the_cell() {
    let mut sim = simulation(96, 96, 0);
    set_cell_active(&mut sim, 3, 4, 1).unwrap();
    force_active(&mut sim, 3, 4).unwrap();
    assert_eq!(get_cell(&sim, 3, 4), Ok(1 | CELL_ACTIVE_MASK));
    force_active(&mut sim, 9, 9).unwrap();
    assert_eq!(get_cell(&sim, 9, 9), Ok(CELL_ACTIVE_MASK));
}

#[test]
fn reactive_cell_decays_in_one_generation() {
    let mut sim = simulation(96, 96, PROBABILITY_ONE);
    let (cx, cy) = (48, 144);
    set_cell_active(&mut sim, cx, cy, 1).unwrap();
    assert!(!sim.generation());

    step_generation(&mut sim).unwrap();
    assert!(sim.generation());

    for x in 0..96 {
        for y in 0..256 {
            let cell = get_cell(&sim, x, y).unwrap();
            let dx = (x - cx).abs();
            let dy = (y - cy).abs();
            if dx == 0 && dy == 0 {
                assert_eq!(cell.material_idx(), 0);
                assert!(cell.is_active());
                assert!(cell.is_updated(sim.generation()));
            } else if dx <= 1 && dy <= 1 {
                assert_eq!(cell, CELL_ACTIVE_MASK, "x: {}, y: {}", x, y);
            } else {
                assert_eq!(cell, 0, "x: {}, y: {}", x, y);
            }
        }
    }
    for chunk_x in 0..3 {
        for chunk_y in 0..8 {
            let word = chunk_word(&sim, chunk_x * 32, chunk_y * 32);
            if (chunk_x, chunk_y) == (1, 4) {
                let columns = (1i64 << (15 + 32)) | (1i64 << (16 + 32)) | (1i64 << (17 + 32));
                let rows = (1i64 << 15) | (1i64 << 16) | (1i64 << 17);
                assert_eq!(word, columns | rows);
            } else {
                assert_eq!(word, 0);
            }
        }
    }
}

#[test]
fn settled_grid_comes_to_rest() {
    let mut sim = simulation(96, 96, PROBABILITY_ONE);
    set_cell_active(&mut sim, 48, 144, 1).unwrap();
    step_generation(&mut sim).unwrap();
    step_generation(&mut sim).unwrap();
    step_generation(&mut sim).unwrap();
    for x in 0..96 {
        for y in 0..256 {
            let cell = get_cell(&sim, x, y).unwrap();
            assert_eq!(cell.material_idx(), 0);
            assert!(!cell.is_active(), "x: {}, y: {}", x, y);
        }
    }
    for chunk_x in 0..3 {
        for chunk_y in 0..8 {
            assert_eq!(chunk_word(&sim, chunk_x * 32, chunk_y * 32), 0);
        }
    }
}

#[test]
fn reaction_that_cannot_fire_keeps_the_cell_waiting() {
    let mut sim = simulation(96, 96, 0);
    set_cell_active(&mut sim, 48, 144, 1).unwrap();
    for _ in 0..3 {
        step_generation(&mut sim).unwrap();
        let cell = get_cell(&sim, 48, 144).unwrap();
        assert_eq!(cell.material_idx(), 1);
        assert!(cell.is_active());
        assert!(cell.is_updated(sim.generation()));
        assert_eq!(get_cell(&sim, 49, 144), Ok(0));
        assert_eq!(chunk_word(&sim, 48, 144), (1i64 << (16 + 32)) | (1i64 << 16));
    }
}

#[test]
fn inactive_grid_does_not_change() {
    let mut sim = simulation(128, 96, PROBABILITY_ONE);
    step_generation(&mut sim).unwrap();
    for x in 0..128 {
        for y in 0..256 {
            assert_eq!(get_cell(&sim, x, y), Ok(0));
        }
    }
}

#[test]
fn border_strips_are_not_swept() {
    let mut sim = simulation(96, 96, PROBABILITY_ONE);
    set_cell_active(&mut sim, 5, 40, 1).unwrap();
    set_cell_active(&mut sim, 90, 40, 1).unwrap();
    step_generation(&mut sim).unwrap();
    assert_eq!(get_cell(&sim, 5, 40), Ok(1 | CELL_ACTIVE_MASK));
    assert_eq!(get_cell(&sim, 90, 40), Ok(1 | CELL_ACTIVE_MASK));
    assert_eq!(chunk_word(&sim, 5, 40), (1i64 << (5 + 32)) | (1i64 << 8));
}

#[test]
fn test_grid_setup() {
    let mut sim = Simulation::new();
    new_test_grid_with_materials(&mut sim).unwrap();
    assert_eq!(sim.materials().len(), 2);
    assert_eq!(sim.materials()[0].display_name, "air");
    assert_eq!(sim.materials()[1].display_name, "react");
    assert_eq!(sim.materials()[0].reactions[0].probability, PROBABILITY_ONE / 10);
    let grid = sim.grid().unwrap();
    assert_eq!((grid.width(), grid.height()), (96, 256));
    for x in 0..96 {
        for y in 0..256 {
            let expected = if (x, y) == (48, 128) { 0 } else { 1 };
            assert_eq!(get_cell(&sim, x, y), Ok(expected | CELL_ACTIVE_MASK));
        }
    }
    step_generation(&mut sim).unwrap();
}

#[test]
fn grid_addressing() {
    let grid = Grid::new_empty(4, 9).unwrap();
    assert_eq!((grid.chunk_width(), grid.chunk_height()), (4, 16));
    assert_eq!((grid.width(), grid.height()), (128, 512));
    assert_eq!(grid.cell_idx(0, 0), 0);
    assert_eq!(grid.cell_idx(5, 0), 5);
    assert_eq!(grid.cell_idx(5, 2), 2 * 128 + 5);
    assert_eq!(grid.cell_idx(127, 511), 128 * 512 - 1);
    assert_eq!(grid.chunk_idx(0, 0), 0);
    assert_eq!(grid.chunk_idx(31, 31), 0);
    assert_eq!(grid.chunk_idx(0, 32), 1);
    assert_eq!(grid.chunk_idx(32, 0), 16);
    assert_eq!(grid.chunk_idx(127, 511), 4 * 16 - 1);
    assert!(grid.in_bounds(127, 511));
    assert!(!grid.in_bounds(128, 0));
    assert!(!grid.in_bounds(0, 512));
    assert!(!grid.in_bounds(-1, 0));
}

#[test]
fn grid_sides_are_clamped_and_capped() {
    let grid = Grid::default();
    assert_eq!((grid.chunk_width(), grid.chunk_height()), (3, 8));
    let grid = Grid::new_empty(3, 8).unwrap();
    assert_eq!((grid.chunk_width(), grid.chunk_height()), (3, 8));
    let grid = Grid::new_empty(5, 8).unwrap();
    assert_eq!((grid.chunk_width(), grid.chunk_height()), (5, 8));
    let grid = Grid::new_empty(513, 8).unwrap();
    assert_eq!((grid.chunk_width(), grid.chunk_height()), (513, 8));
    let grid = Grid::new_empty(3, 513).unwrap();
    assert_eq!((grid.chunk_width(), grid.chunk_height()), (3, 520));
    assert!(matches!(Grid::new_empty(32769, 8), Err(SimError::InvalidDimensions)));
    assert!(matches!(Grid::new_empty(3, 87377), Err(SimError::InvalidDimensions)));
    assert!(matches!(Grid::new_empty(u64::MAX, u64::MAX), Err(SimError::InvalidDimensions)));
}

#[test]
fn grid_is_bounded_by_its_chunk_count() {
    assert_eq!(MAX_CHUNK_COUNT, 262144);
    assert!(Grid::admits(0, 0));
    assert!(Grid::admits(600, 8));
    assert!(Grid::admits(32768, 8));
    assert!(!Grid::admits(32769, 8));
    assert!(Grid::admits(3, 87376));
    // 87377 chunks are raised to 87384, and three times that is too many.
    assert!(!Grid::admits(3, 87377));
    assert!(Grid::admits(512, 512));
    assert!(!Grid::admits(513, 512));
    assert!(!Grid::admits(u64::MAX, 1));
    assert!(!Grid::admits(1, u64::MAX));
}
