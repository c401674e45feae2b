//! The tile engine: grid arithmetic, per-chunk edit storage and the tile map.

pub mod grid;
pub mod overlay;
pub mod terrain;
pub mod cache;
pub mod model;
pub mod map;
pub mod laws;

pub use grid::{GridCoord, TileValue, DENSE_SWITCH_POINT, PARTITION_SIZE};
pub use overlay::AreaChanges;
pub use map::TileMap;
