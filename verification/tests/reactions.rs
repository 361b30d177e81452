use rand_xoshiro::rand_core::SeedableRng;
use rand_xoshiro::Xoroshiro64StarStar;
use sand_kernel::material::{
    is_valid_table, reaction_outcome, reactions_between, CellCollision, CellMovement, Material,
    Reaction, ReactionResult, MAX_MATERIALS, PROBABILITY_ONE,
};

fn material(name: &str, reactions_range: Vec<u64>, reactions: Vec<Reaction>) -> Material {
    Material {
        display_name: name.to_string(),
        color: (),
        movement: CellMovement::Powder,
        density: 1.5f32.to_bits(),
        durability: 0,
        collision: CellCollision::Solid,
        friction: 0,
        bounciness: 0,
        on_destroyed: (),
        reactions_range,
        reactions,
    }
}

fn pack(start: u64, end: u64) -> u64 {
    start | (end << 32)
}

#[test]
fn certain_reaction_always_fires() {
    let reaction = Reaction {
        probability: PROBABILITY_ONE,
        material_out1: Some(3),
        material_out2: None,
    };
    let low = material("low", vec![pack(0, 0), pack(0, 1)], vec![reaction]);
    let high = material("high", Vec::new(), Vec::new());
    for seed in 0..50 {
        let mut rng = Xoroshiro64StarStar::seed_from_u64(seed);
        assert_eq!(
            reactions_between(4, 5, &low, &high, &mut rng),
            ReactionResult::Reacted { material_out1: Some(3), material_out2: None }
        );
    }
}

#[test]
fn outputs_change_sides_with_the_pair() {
    let reaction = Reaction {
        probability: PROBABILITY_ONE,
        material_out1: Some(3),
        material_out2: Some(9),
    };
    let low = material("low", vec![pack(0, 0), pack(0, 1)], vec![reaction]);
    let high = material("high", Vec::new(), Vec::new());
    let mut rng = Xoroshiro64StarStar::seed_from_u64(1);
    assert_eq!(
        reactions_between(5, 4, &high, &low, &mut rng),
        ReactionResult::Reacted { material_out1: Some(9), material_out2: Some(3) }
    );
    assert_eq!(
        reactions_between(4, 5, &low, &high, &mut rng),
        ReactionResult::Reacted { material_out1: Some(3), material_out2: Some(9) }
    );
}

#[test]
fn impossible_reaction_never_fires() {
    let reaction = Reaction { probability: 0, material_out1: Some(3), material_out2: None };
    let low = material("low", vec![pack(0, 1)], vec![reaction]);
    for seed in 0..50 {
        let mut rng = Xoroshiro64StarStar::seed_from_u64(seed);
        assert_eq!(reactions_between(2, 2, &low, &low, &mut rng), ReactionResult::CouldReact);
    }
}

#[test]
fn empty_range_draws_nothing() {
    let reaction = Reaction {
        probability: PROBABILITY_ONE / 2,
        material_out1: Some(3),
        material_out2: None,
    };
    let low = material("low", vec![pack(0, 0), pack(0, 1)], vec![reaction]);
    let high = material("high", Vec::new(), Vec::new());
    let fresh = Xoroshiro64StarStar::seed_from_u64(5);
    let mut rng = fresh.clone();
    assert_eq!(reactions_between(0, 0, &low, &low, &mut rng), ReactionResult::Inert);
    assert_eq!(reactions_between(0, 2, &low, &high, &mut rng), ReactionResult::Inert);
    assert_eq!(rng, fresh);
    reactions_between(0, 1, &low, &high, &mut rng);
    assert_ne!(rng, fresh);
}

#[test]
fn empty_range_never_reacts() {
    let reaction = Reaction {
        probability: PROBABILITY_ONE,
        material_out1: Some(3),
        material_out2: None,
    };
    let low = material("low", vec![pack(0, 0), pack(1, 1)], vec![reaction]);
    let high = material("high", Vec::new(), Vec::new());
    let mut rng = Xoroshiro64StarStar::seed_from_u64(7);
    assert_eq!(reactions_between(0, 0, &low, &low, &mut rng), ReactionResult::Inert);
    assert_eq!(reactions_between(0, 1, &low, &high, &mut rng), ReactionResult::Inert);
    // A distance beyond the range table.
    assert_eq!(reactions_between(0, 2, &low, &high, &mut rng), ReactionResult::Inert);
    assert_eq!(reactions_between(2, 0, &high, &low, &mut rng), ReactionResult::Inert);
}

#[test]
fn first_reaction_to_fire_wins() {
    let never = Reaction { probability: 0, material_out1: Some(1), material_out2: None };
    let always = Reaction {
        probability: PROBABILITY_ONE,
        material_out1: Some(2),
        material_out2: None,
    };
    let shadowed = Reaction {
        probability: PROBABILITY_ONE,
        material_out1: Some(3),
        material_out2: None,
    };
    let low = material("low", vec![pack(0, 3)], vec![never, always, shadowed]);
    for seed in 0..20 {
        let mut rng = Xoroshiro64StarStar::seed_from_u64(seed);
        assert_eq!(
            reactions_between(0, 0, &low, &low, &mut rng),
            ReactionResult::Reacted { material_out1: Some(2), material_out2: None }
        );
    }
}

#[test]
fn uneven_chance_fires_sometimes() {
    let reaction = Reaction {
        probability: PROBABILITY_ONE / 2,
        material_out1: None,
        material_out2: Some(1),
    };
    let low = material("low", vec![pack(0, 1)], vec![reaction]);
    let mut rng = Xoroshiro64StarStar::seed_from_u64(3);
    let mut fired = 0;
    let mut waited = 0;
    for _ in 0..1000 {
        match reactions_between(0, 0, &low, &low, &mut rng) {
            ReactionResult::Reacted { material_out1, material_out2 } => {
                assert_eq!(material_out1, None);
                assert_eq!(material_out2, Some(1));
                fired += 1;
            }
            ReactionResult::CouldReact => waited += 1,
            ReactionResult::Inert => panic!("a pair with reactions cannot be inert"),
        }
    }
    assert!(fired > 300 && waited > 300);
}

#[test]
fn outcome_of_a_given_winner() {
    let first = Reaction { probability: 5, material_out1: Some(1), material_out2: Some(2) };
    let second = Reaction { probability: 5, material_out1: None, material_out2: Some(4) };
    let list = vec![first, second];
    assert_eq!(reaction_outcome(&list, 0, 2, None, false), ReactionResult::CouldReact);
    assert_eq!(reaction_outcome(&list, 1, 1, None, false), ReactionResult::Inert);
    assert_eq!(
        reaction_outcome(&list, 0, 2, Some(1), false),
        ReactionResult::Reacted { material_out1: None, material_out2: Some(4) }
    );
    assert_eq!(
        reaction_outcome(&list, 1, 2, Some(0), true),
        ReactionResult::Reacted { material_out1: Some(4), material_out2: None }
    );
    assert_eq!(
        reaction_outcome(&list, 0, 1, Some(0), true),
        ReactionResult::Reacted { material_out1: Some(2), material_out2: Some(1) }
    );
}

#[test]
fn material_validity() {
    let reaction = Reaction {
        probability: PROBABILITY_ONE,
        material_out1: Some(1),
        material_out2: None,
    };
    assert!(material("ok", vec![pack(0, 1)], vec![reaction]).is_valid(2));
    assert!(material("none", Vec::new(), Vec::new()).is_valid(0));
    // The reaction produces material 1, which a table of one entry lacks.
    assert!(!material("out", vec![pack(0, 1)], vec![reaction]).is_valid(1));
    // The range ends beyond the reaction list.
    assert!(!material("long", vec![pack(0, 2)], vec![reaction]).is_valid(2));
    // The range ends before it starts.
    assert!(!material("back", vec![pack(1, 0)], vec![reaction]).is_valid(2));
    let over = Reaction {
        probability: PROBABILITY_ONE + 1,
        material_out1: None,
        material_out2: None,
    };
    assert!(!material("over", Vec::new(), vec![over]).is_valid(2));
}

#[test]
fn material_clone_keeps_every_field() {
    let reaction = Reaction { probability: 17, material_out1: Some(1), material_out2: None };
    let sand = material("sand", vec![pack(0, 1)], vec![reaction]);
    let copy = sand.clone();
    assert_eq!(copy.display_name, "sand");
    assert_eq!(copy.movement, CellMovement::Powder);
    assert_eq!(copy.density, 1.5f32.to_bits());
    assert_eq!(copy.collision, CellCollision::Solid);
    assert_eq!(copy.reactions_range, vec![pack(0, 1)]);
    assert_eq!(copy.reactions, vec![reaction]);
}

#[test]
fn defaults_are_solid() {
    assert_eq!(CellMovement::default(), CellMovement::Solid);
    assert_eq!(CellCollision::default(), CellCollision::Solid);
}

#[test]
fn table_validity() {
    let to_second = Reaction { probability: 1, material_out1: Some(1), material_out2: None };
    let first = material("first", vec![pack(0, 1)], vec![to_second]);
    let second = material("second", Vec::new(), Vec::new());
    assert!(is_valid_table(&Vec::new()));
    assert!(is_valid_table(&vec![first.clone(), second.clone()]));
    // Alone, the first material produces a material that the table lacks.
    assert!(!is_valid_table(&vec![first]));
    let full: Vec<Material> = (0..MAX_MATERIALS).map(|_| second.clone()).collect();
    assert!(is_valid_table(&full));
    let over: Vec<Material> = (0..MAX_MATERIALS + 1).map(|_| second.clone()).collect();
    assert!(!is_valid_table(&over));
}
