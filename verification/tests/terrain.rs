use tilemap::tile_world::terrain::{base_tile_of, clamp_level, tile_for_level};
use tilemap::tile_world::TileValue;

#[test]
fn levels_are_clamped_to_zero_and_one() {
    assert_eq!(clamp_level(0), 0);
    assert_eq!(clamp_level(1), 1);
    assert_eq!(clamp_level(2), 1);
    assert_eq!(clamp_level(-1), 0);
    assert_eq!(clamp_level(i64::MAX), 1);
    assert_eq!(clamp_level(i64::MIN), 0);
}

#[test]
fn clamped_levels_stand_for_tiles() {
    assert_eq!(tile_for_level(0), TileValue::Empty);
    assert_eq!(tile_for_level(1), TileValue::Rock);
    assert_eq!(tile_for_level(2), TileValue::Error);
    assert_eq!(tile_for_level(-1), TileValue::Error);
    assert_eq!(tile_for_level(i32::MAX), TileValue::Error);
}

#[test]
fn generated_tiles_are_never_errors() {
    assert_eq!(base_tile_of(0), TileValue::Empty);
    assert_eq!(base_tile_of(1), TileValue::Rock);
    assert_eq!(base_tile_of(-3), TileValue::Empty);
    assert_eq!(base_tile_of(7), TileValue::Rock);
    assert_eq!(base_tile_of(i64::MIN), TileValue::Empty);
    assert_eq!(base_tile_of(i64::MAX), TileValue::Rock);
    for level in -100..100 {
        assert_ne!(base_tile_of(level), TileValue::Error);
    }
}
