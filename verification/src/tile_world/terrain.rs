//! The generated layer: what a cell holds while nothing has been written to it.
//!
//! A noise source outside this library assigns every cell a level: the noise at
//! the cell, shifted to be non-negative, scaled by the rock density and rounded
//! to the nearest integer. This module turns a level into a tile.

use vstd::prelude::*;
use crate::tile_world::grid::TileValue;

verus! {

/// The tile generated for a level: `Empty` up to zero, `Rock` from one on.
pub open spec fn base_tile(level: int) -> TileValue {
    if level <= 0 {
        TileValue::Empty
    } else {
        TileValue::Rock
    }
}

/// `level` limited to the two levels that stand for a tile.
pub fn clamp_level(level: i64) -> (clamped: i32)
    ensures
        clamped == if level > 1 {
            1int
        } else if level < 0 {
            0int
        } else {
            level as int
        },
{
    if level > 1 {
        1
    } else if level < 0 {
        0
    } else {
        level as i32
    }
}

/// The tile that stands for a clamped level. Any other level gives `Error`.
pub fn tile_for_level(level: i32) -> (tile: TileValue)
    ensures
        tile == match level {
            0 => TileValue::Empty,
            1 => TileValue::Rock,
            _ => TileValue::Error,
        },
{
    match level {
        0 => TileValue::Empty,
        1 => TileValue::Rock,
        _ => TileValue::Error,
    }
}

/// The tile generated for a level. It is `Empty` or `Rock` for every level,
/// never `Error`.
pub fn base_tile_of(level: i64) -> (tile: TileValue)
    ensures
        tile == base_tile(level as int),
        tile == TileValue::Empty || tile == TileValue::Rock,
{
    tile_for_level(clamp_level(level))
}

} // verus!
