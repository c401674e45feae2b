use noise::{HybridMulti, NoiseFn};
use quicksilver::geom::Rectangle;
use tilemap::tile_world::{AreaChanges, GridCoord, TileMap, TileValue, PARTITION_SIZE};

/// The level of a cell: the noise there, shifted to be non-negative, scaled by
/// the rock density and rounded.
fn noise_levels(rock_density: f64) -> impl Fn(i64, i64) -> i64 {
    let generator_func = HybridMulti::new();
    move |x: i64, y: i64| {
        ((generator_func.get([x as f64, y as f64]) + 1.0) / (2.0 + rock_density)).round() as i64
    }
}

fn new_map() -> TileMap<impl Fn(i64, i64) -> i64> {
    TileMap::new(noise_levels(0.25))
}

fn is_valid_generated_tile(value: &TileValue) -> bool {
    value == &TileValue::Empty || value == &TileValue::Rock
}

#[test]
fn empty_map_access_gives_valid() {
    let mut map = new_map();
    assert!(is_valid_generated_tile(&map.sample(&GridCoord { x: 0, y: 0 })));
}

#[test]
fn untouched_map_no_errors() {
    let mut map = new_map();

    // Check the 1 million tiles closest to origin
    let x_min: i64 = -500;
    let x_max: i64 = 500;
    let y_min: i64 = -500;
    let y_max: i64 = 500;

    for x in x_min..x_max {
        for y in y_min..y_max {
            assert!(
                is_valid_generated_tile(&map.sample(&GridCoord { x, y })),
                "Found invalid tile at ({}, {})",
                x,
                y
            );
        }
    }
}

#[test]
fn map_write_get_back_1() {
    let mut map = new_map();
    map.make_change(&GridCoord { x: 0, y: 0 }, &TileValue::Error);
    assert_eq!(map.sample(&GridCoord { x: 0, y: 0 }), TileValue::Error);
}

#[test]
fn map_write_get_back_dense_100() {
    let mut map = new_map();

    // Large bounds but still within a single cache
    let x_min: i64 = -5;
    let x_max: i64 = 5;
    let y_min: i64 = -5;
    let y_max: i64 = 5;

    for x in x_min..x_max {
        for y in y_min..y_max {
            map.make_change(&GridCoord { x, y }, &TileValue::Error);
        }
    }

    for x in x_min..x_max {
        for y in y_min..y_max {
            assert_eq!(map.sample(&GridCoord { x, y }), TileValue::Error);
        }
    }
}

#[test]
fn map_write_get_back_sparse_100() {
    let mut map = new_map();

    // Large bounds but still within a single cache
    let x_min: i64 = -5;
    let x_max: i64 = 5;
    let y_min: i64 = -5;
    let y_max: i64 = 5;

    for x in x_min..x_max {
        for y in y_min..y_max {
            map.make_change(&GridCoord { x: 100 * x, y: 100 * y }, &TileValue::Error);
        }
    }

    for x in x_min..x_max {
        for y in y_min..y_max {
            assert_eq!(map.sample(&GridCoord { x: 100 * x, y: 100 * y }), TileValue::Error);
        }
    }
}

#[test]
fn map_write_get_back_10000() {
    let mut map = new_map();

    // Bounds big enough to be waaay beyond the cache
    let x_min: i64 = -50;
    let x_max: i64 = 50;
    let y_min: i64 = -50;
    let y_max: i64 = 50;

    for x in x_min..x_max {
        for y in y_min..y_max {
            map.make_change(&GridCoord { x, y }, &TileValue::Error);
        }
    }

    for x in x_min..x_max {
        for y in y_min..y_max {
            assert_eq!(map.sample(&GridCoord { x, y }), TileValue::Error);
        }
    }
}

/// Picks the cell under a position given in world units: the position is
/// floored to the cell that holds it.
fn pick(map: &mut TileMap<impl Fn(i64, i64) -> i64>, world_x: f32, world_y: f32) -> GridCoord {
    map.pos_to_grid(world_x.floor() as i64, world_y.floor() as i64)
}

#[test]
fn pos_to_grid() {
    let mut map = new_map();
    assert_eq!(pick(&mut map, 0.0, 0.0), GridCoord { x: 0, y: 0 });
    assert_eq!(pick(&mut map, 0.1, 0.1), GridCoord { x: 0, y: 0 });
    assert_eq!(pick(&mut map, -0.1, -0.1), GridCoord { x: -1, y: -1 });
    assert_eq!(pick(&mut map, 0.6, -0.6), GridCoord { x: 0, y: -1 });
    assert_eq!(pick(&mut map, 1.0, 1.0), GridCoord { x: 1, y: 1 });
}

#[test]
fn pos_to_grid_subtiles() {
    let mut map = new_map();
    map.make_change(&GridCoord { x: 0, y: 0 }, &TileValue::Subtile(GridCoord { x: 1, y: 0 }));
    assert_eq!(pick(&mut map, 0.0, 0.0), GridCoord { x: 1, y: 0 });
}

#[test]
fn for_each_tile_bounds_gets_all() {
    let mut map = new_map();
    // Create a rectangle from (0, 0) to (10, 10)
    let bounds = Rectangle::new_sized((10, 10));
    let mut tiles_hit: u32 = 0;

    let min_val = 0;
    let max_val = 10;

    let min_cell = GridCoord { x: bounds.pos.x.floor() as i64, y: bounds.pos.y.floor() as i64 };
    let max_cell = GridCoord {
        x: (bounds.pos.x + bounds.size.x).ceil() as i64,
        y: (bounds.pos.y + bounds.size.y).ceil() as i64,
    };
    map.for_each_tile_rect(
        &min_cell,
        &max_cell,
        |pos: &GridCoord, _value: &TileValue, _size: &GridCoord| {
            tiles_hit += 1;
            assert!(pos.x >= min_val, "Expected X greater than {}, got {}", min_val, pos.x);
            assert!(pos.x <= max_val, "Expected X less than {}, got {}", max_val, pos.x);
            assert!(pos.y >= min_val, "Expected Y greater than {}, got {}", min_val, pos.y);
            assert!(pos.y <= max_val, "Expected Y less than {}, got {}", max_val, pos.y);
        },
    );

    // One row past the end should be hit, so actual bounds are 11x11
    assert_eq!(tiles_hit, 121);
}

#[test]
fn sample_from_switched_dense() {
    let mut partition = AreaChanges::new();

    // Change 3/4 of the tiles
    for x in 0..PARTITION_SIZE as i64 {
        for y in 0..PARTITION_SIZE as i64 {
            if x % 4 == 0 {
                partition.add_change(&GridCoord { x, y }, &TileValue::Empty);
            }
        }
    }

    // Test all the tiles
    for x in 0..PARTITION_SIZE as i64 {
        for y in 0..PARTITION_SIZE as i64 {
            if x % 4 == 0 {
                assert_eq!(
                    partition.sample(&GridCoord { x, y }),
                    Some(TileValue::Empty),
                    "Tile value at ({}, {}) lost!",
                    x,
                    y
                );
            } else {
                assert_eq!(
                    partition.sample(&GridCoord { x, y }),
                    None,
                    "Tile value at ({}, {}) invented from nothing!",
                    x,
                    y
                );
            }
        }
    }
}

#[test]
fn setting_large_object_works() {
    let mut map = new_map();

    map.make_change(&GridCoord { x: 1, y: 1 }, &TileValue::HabModule);

    for x in -2..5 {
        for y in -2..5 {
            let value_here = map.sample(&GridCoord { x, y });
            if x == 1 && y == 1 {
                assert_eq!(value_here, TileValue::HabModule);
            } else if x >= 0 && x < 3 && y >= 0 && y < 3 {
                assert_eq!(value_here, TileValue::Subtile(GridCoord { x: 1, y: 1 }));
            } else {
                assert!(
                    is_valid_generated_tile(&value_here),
                    "Expected untouched tile at ({}, {}), found not that",
                    x,
                    y
                );
            }
        }
    }
}

#[test]
fn revoving_large_object_works() {
    let mut map = new_map();

    map.make_change(&GridCoord { x: 1, y: 1 }, &TileValue::HabModule);
    map.make_change(&GridCoord { x: 1, y: 1 }, &TileValue::Empty);

    for x in -2..5 {
        for y in -2..5 {
            let value_here = map.sample(&GridCoord { x, y });
            if x >= 0 && x < 3 && y >= 0 && y < 3 {
                assert_eq!(value_here, TileValue::Empty);
            } else {
                assert!(
                    is_valid_generated_tile(&value_here),
                    "Expected untouched tile at ({}, {}), found not that",
                    x,
                    y
                );
            }
        }
    }
}

#[test]
fn clear_space_is_clear() {
    let mut map = new_map();

    map.set_area(&GridCoord { x: -3, y: -6 }, &GridCoord { x: 9, y: 9 }, TileValue::Rock);
    map.set_area(&GridCoord { x: 0, y: 0 }, &GridCoord { x: 3, y: 3 }, TileValue::Empty);

    assert_eq!(
        map.area_clear(&GridCoord { x: 0, y: 0 }, &GridCoord { x: 3, y: 3 }),
        true,
        "Clear area wasn't"
    );
    assert_eq!(
        map.area_clear(&GridCoord { x: -1, y: 1 }, &GridCoord { x: 3, y: 3 }),
        false,
        "Unclear area wasn't"
    );
    assert_eq!(
        map.area_clear(&GridCoord { x: 1, y: 1 }, &GridCoord { x: 3, y: 3 }),
        false,
        "Unclear area wasn't"
    );
    assert_eq!(
        map.area_clear(&GridCoord { x: 1, y: -1 }, &GridCoord { x: 3, y: 3 }),
        false,
        "Unclear area wasn't"
    );
    assert_eq!(
        map.area_clear(&GridCoord { x: -1, y: 1 }, &GridCoord { x: 3, y: 3 }),
        false,
        "Unclear area wasn't"
    );
}
