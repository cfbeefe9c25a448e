use tile_collision::{TileType, UNIT};

#[test]
fn test_tile_walkability() {
    assert!(TileType::Dirt.is_walkable());
    assert!(TileType::Grass.is_walkable());
    assert!(!TileType::Water.is_walkable());
    assert!(!TileType::Tree.is_walkable());
}

#[test]
fn blocking_kinds_are_water_tree_and_rock() {
    assert!(!TileType::Water.is_walkable());
    assert!(!TileType::Tree.is_walkable());
    assert!(!TileType::Rock.is_walkable());
}

#[test]
fn every_other_kind_is_walkable() {
    assert!(TileType::Dirt.is_walkable());
    assert!(TileType::Grass.is_walkable());
    assert!(TileType::YellowGrass.is_walkable());
    assert!(TileType::Shore.is_walkable());
    assert!(TileType::Plant.is_walkable());
    assert!(TileType::Stump.is_walkable());
    assert!(TileType::Empty.is_walkable());
}

#[test]
fn friction_is_one_except_on_grass() {
    assert_eq!(UNIT, 10_000);
    assert_eq!(TileType::Dirt.friction(), 10_000);
    assert_eq!(TileType::Grass.friction(), 8_500);
    assert_eq!(TileType::YellowGrass.friction(), 7_000);
    assert_eq!(TileType::Water.friction(), 10_000);
    assert_eq!(TileType::Shore.friction(), 10_000);
    assert_eq!(TileType::Tree.friction(), 10_000);
    assert_eq!(TileType::Rock.friction(), 10_000);
    assert_eq!(TileType::Plant.friction(), 10_000);
    assert_eq!(TileType::Stump.friction(), 10_000);
    assert_eq!(TileType::Empty.friction(), 10_000);
}

#[test]
fn tile_types_compare_by_variant() {
    assert_eq!(TileType::Shore, TileType::Shore);
    assert_ne!(TileType::Shore, TileType::Water);
    let copy = TileType::Rock;
    let other = copy;
    assert_eq!(copy, other);
}
