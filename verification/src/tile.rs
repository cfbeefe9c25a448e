//! Terrain classification with its fixed walkability and friction mapping.

use vstd::prelude::*;
use crate::units::UNIT;

verus! {

/// The kind of terrain or obstacle that occupies one cell of the world grid.
#[derive(Clone, Copy, Debug, PartialEq, Eq, Structural)]
pub enum TileType {
    /// Bare ground.
    Dirt,
    /// Green grass.
    Grass,
    /// Dry, dense grass.
    YellowGrass,
    /// Open water: blocks movement.
    Water,
    /// Walkable edge of water.
    Shore,
    /// A tree: blocks movement.
    Tree,
    /// A rock: blocks movement.
    Rock,
    /// A small plant that can be walked over.
    Plant,
    /// A tree stump that can be walked over.
    Stump,
    /// No tile at all; void space counts as walkable.
    Empty,
}

/// Friction of green grass: 0.85.
pub const GRASS_FRICTION: i32 = 8_500;

/// Friction of dry grass: 0.7.
pub const YELLOW_GRASS_FRICTION: i32 = 7_000;

impl TileType {
    /// Whether an actor may stand on this kind of tile: water, trees and
    /// rocks block, every other kind can be walked on.
    pub open spec fn walkable(self) -> bool {
        !(self is Water || self is Tree || self is Rock)
    }

    /// The factor by which this kind of tile scales an actor's speed, in
    /// fixed-point steps: `UNIT`, which is 1.0, except on the two kinds of
    /// grass.
    pub open spec fn friction_value(self) -> int {
        match self {
            TileType::Grass => GRASS_FRICTION as int,
            TileType::YellowGrass => YELLOW_GRASS_FRICTION as int,
            _ => UNIT as int,
        }
    }

    /// Returns true if an actor can walk on this tile type.
    pub fn is_walkable(&self) -> (res: bool)
        ensures
            res == self.walkable(),
    {
        match self {
            TileType::Water | TileType::Tree | TileType::Rock => false,
            _ => true,
        }
    }

    /// Returns the friction multiplier of this tile type, in fixed-point
    /// steps: `UNIT` is normal speed, less is slower.
    pub fn friction(&self) -> (res: i32)
        ensures
            res == self.friction_value(),
            0 < res <= UNIT,
    {
        match self {
            TileType::Dirt => UNIT,
            TileType::Grass => GRASS_FRICTION,
            TileType::YellowGrass => YELLOW_GRASS_FRICTION,
            _ => UNIT,
        }
    }
}

} // verus!
