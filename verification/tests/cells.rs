use sand_kernel::cell::{
    CellTrait, CELL_ACTIVE_MASK, COLOR_MASK, MATERIAL_MASK, UPDATED_MASK,
};
use sand_kernel::material::{CellCollision, CellMovement, Material};

fn material(name: &str) -> Material {
    Material {
        display_name: name.to_string(),
        color: (),
        movement: CellMovement::default(),
        density: 0,
        durability: 0,
        collision: CellCollision::default(),
        friction: 0,
        bounciness: 0,
        on_destroyed: (),
        reactions_range: Vec::new(),
        reactions: Vec::new(),
    }
}

#[test]
fn material_index_is_the_low_twelve_bits() {
    let cell: u32 = 0xABCD_E123;
    assert_eq!(cell.material_idx(), 0x123);
    let mut cell: u32 = 0xFFFF_FFFF;
    cell.set_material_idx(0);
    assert_eq!(cell, 0xFFFF_F000);
    cell.set_material_idx(0xABC);
    assert_eq!(cell, 0xFFFF_FABC);
    assert_eq!(cell.material_idx(), 0xABC);
}

#[test]
fn material_index_above_twelve_bits_is_cut() {
    let mut cell: u32 = 0;
    cell.set_material_idx(0x1_2345);
    assert_eq!(cell, 0x345);
    assert_eq!(cell & !MATERIAL_MASK, 0);
}

#[test]
fn updated_is_relative_to_the_generation() {
    let mut cell: u32 = 0;
    assert!(cell.is_updated(false));
    assert!(!cell.is_updated(true));
    cell.set_updated(true);
    assert_eq!(cell, UPDATED_MASK);
    assert!(cell.is_updated(true));
    assert!(!cell.is_updated(false));
    cell.set_updated(false);
    assert_eq!(cell, 0);
}

#[test]
fn active_flag_round_trip() {
    let mut cell: u32 = 0x1234_5678;
    assert!(!cell.is_active());
    cell.set_active(true);
    assert_eq!(cell, 0x1234_5678 | CELL_ACTIVE_MASK);
    assert!(cell.is_active());
    cell.set_active(false);
    assert_eq!(cell, 0x1234_5678);
}

#[test]
fn color_is_the_top_byte() {
    let mut cell: u32 = 0x12FF_FFFF;
    assert_eq!(cell.color(), 0x12);
    cell.set_color(0xAB);
    assert_eq!(cell, 0xABFF_FFFF);
    assert_eq!(cell & !COLOR_MASK, 0x00FF_FFFF);
    cell.set_color(0);
    assert_eq!(cell, 0x00FF_FFFF);
}

#[test]
fn setters_leave_the_other_fields() {
    let mut cell: u32 = 0;
    cell.set_material_idx(7);
    cell.set_color(9);
    cell.set_active(true);
    cell.set_updated(true);
    assert_eq!(cell.material_idx(), 7);
    assert_eq!(cell.color(), 9);
    assert!(cell.is_active());
    assert!(cell.is_updated(true));
    assert_eq!(cell, 0x0900_3007);
}

#[test]
fn material_lookup() {
    let table = vec![material("air"), material("sand")];
    let mut cell: u32 = 0;
    cell.set_material_idx(1);
    let (idx, found) = cell.material(&table).unwrap();
    assert_eq!(idx, 1);
    assert_eq!(found.display_name, "sand");
    cell.set_material_idx(2);
    assert!(cell.material(&table).is_none());
}
