//! Spatial queries and movement resolution for a top-down tile world.
//!
//! A [`Grid`] holds one [`TileType`] per cell and maps world points to cells.
//! On top of it stand the point and margin walkability queries, the exact
//! circle-against-grid collision test and the swept movement resolver, which
//! carries a circular collider toward a goal without passing through
//! obstacles and slides it along walls.
//!
//! World coordinates and lengths are fixed-point numbers: see [`units`].

pub mod circle;
pub mod grid;
pub mod inventory;
pub mod margin;
pub mod sweep;
pub mod telemetry;
pub mod tile;
pub mod units;

pub use grid::Grid;
pub use grid::GridView;
pub use tile::TileType;
pub use units::GridPos;
pub use units::WorldPos;
pub use units::EPSILON;
pub use units::UNIT;
