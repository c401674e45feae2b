use std::cell::Cell;
use std::rc::Rc;
use tilemap::tile_world::{GridCoord, TileMap, TileValue};

/// A noise source that counts its calls and gives every cell the same level.
fn counting_source(calls: &Rc<Cell<u32>>, level: i64) -> Box<dyn Fn(i64, i64) -> i64> {
    let calls = Rc::clone(calls);
    Box::new(move |_x: i64, _y: i64| {
        calls.set(calls.get() + 1);
        level
    })
}

fn at(x: i64, y: i64) -> GridCoord {
    GridCoord { x, y }
}

#[test]
fn second_sample_comes_from_the_cache() {
    let calls = Rc::new(Cell::new(0));
    let mut map = TileMap::new(counting_source(&calls, 1));
    assert_eq!(map.sample(&at(4, 4)), TileValue::Rock);
    assert_eq!(calls.get(), 1);
    assert_eq!(map.sample(&at(4, 4)), TileValue::Rock);
    assert_eq!(map.sample(&at(4, 4)), TileValue::Rock);
    assert_eq!(calls.get(), 1);
    assert_eq!(map.sample(&at(4, 5)), TileValue::Rock);
    assert_eq!(calls.get(), 2);
}

#[test]
fn without_a_cache_every_sample_generates() {
    let calls = Rc::new(Cell::new(0));
    let mut map = TileMap::new(counting_source(&calls, 0));
    map.resize_cache(0);
    assert_eq!(map.sample(&at(4, 4)), TileValue::Empty);
    assert_eq!(map.sample(&at(4, 4)), TileValue::Empty);
    assert_eq!(calls.get(), 2);
}

#[test]
fn edited_cells_never_generate() {
    let calls = Rc::new(Cell::new(0));
    let mut map = TileMap::new(counting_source(&calls, 0));
    map.resize_cache(0);
    map.make_single_tile_change(&at(1, 1), TileValue::Rock);
    assert_eq!(map.sample(&at(1, 1)), TileValue::Rock);
    assert_eq!(calls.get(), 0);
}

#[test]
fn the_cache_drops_what_went_unused_the_longest() {
    let calls = Rc::new(Cell::new(0));
    let mut map = TileMap::new(counting_source(&calls, 0));
    map.resize_cache(2);
    map.sample(&at(0, 0));
    map.sample(&at(1, 0));
    assert_eq!(calls.get(), 2);
    // using (0, 0) again leaves (1, 0) as the one that leaves next
    map.sample(&at(0, 0));
    assert_eq!(calls.get(), 2);
    map.sample(&at(2, 0));
    assert_eq!(calls.get(), 3);
    map.sample(&at(0, 0));
    assert_eq!(calls.get(), 3);
    map.sample(&at(1, 0));
    assert_eq!(calls.get(), 4);
}

#[test]
fn a_cache_of_one_holds_the_last_cell() {
    let calls = Rc::new(Cell::new(0));
    let mut map = TileMap::new(counting_source(&calls, 0));
    map.resize_cache(1);
    map.sample(&at(0, 0));
    map.sample(&at(0, 0));
    assert_eq!(calls.get(), 1);
    map.sample(&at(1, 0));
    map.sample(&at(0, 0));
    assert_eq!(calls.get(), 3);
}

#[test]
fn a_new_map_caches_256_tiles() {
    let calls = Rc::new(Cell::new(0));
    let mut map = TileMap::new(counting_source(&calls, 0));
    for x in 0..256 {
        map.sample(&at(x, 0));
    }
    assert_eq!(calls.get(), 256);
    for x in 0..256 {
        map.sample(&at(x, 0));
    }
    assert_eq!(calls.get(), 256);
    map.sample(&at(256, 0));
    assert_eq!(calls.get(), 257);
    // (0, 0) went unused the longest, so it had to make room
    map.sample(&at(1, 0));
    assert_eq!(calls.get(), 257);
    map.sample(&at(0, 0));
    assert_eq!(calls.get(), 258);
}

#[test]
fn shrinking_keeps_the_most_recent_entries() {
    let calls = Rc::new(Cell::new(0));
    let mut map = TileMap::new(counting_source(&calls, 0));
    map.sample(&at(0, 0));
    map.sample(&at(1, 0));
    map.sample(&at(2, 0));
    map.resize_cache(2);
    map.sample(&at(2, 0));
    map.sample(&at(1, 0));
    assert_eq!(calls.get(), 3);
    map.sample(&at(0, 0));
    assert_eq!(calls.get(), 4);
}

#[test]
fn growing_keeps_every_entry() {
    let calls = Rc::new(Cell::new(0));
    let mut map = TileMap::new(counting_source(&calls, 0));
    map.resize_cache(2);
    map.sample(&at(0, 0));
    map.sample(&at(1, 0));
    map.resize_cache(3);
    map.sample(&at(2, 0));
    map.sample(&at(0, 0));
    map.sample(&at(1, 0));
    map.sample(&at(2, 0));
    assert_eq!(calls.get(), 3);
    map.resize_cache(3);
    map.sample(&at(0, 0));
    assert_eq!(calls.get(), 3);
}

#[test]
fn switching_the_cache_off_empties_it() {
    let calls = Rc::new(Cell::new(0));
    let mut map = TileMap::new(counting_source(&calls, 0));
    map.sample(&at(0, 0));
    map.resize_cache(0);
    map.resize_cache(8);
    map.sample(&at(0, 0));
    assert_eq!(calls.get(), 2);
    map.sample(&at(0, 0));
    assert_eq!(calls.get(), 2);
}

#[test]
fn writes_go_through_to_the_cache() {
    let calls = Rc::new(Cell::new(0));
    let mut map = TileMap::new(counting_source(&calls, 0));
    assert_eq!(map.sample(&at(3, 3)), TileValue::Empty);
    map.make_single_tile_change(&at(3, 3), TileValue::Rock);
    assert_eq!(map.sample(&at(3, 3)), TileValue::Rock);
    map.set_area(&at(2, 2), &at(3, 3), TileValue::Error);
    assert_eq!(map.sample(&at(3, 3)), TileValue::Error);
    map.make_change(&at(3, 3), &TileValue::HabModule);
    assert_eq!(map.sample(&at(3, 3)), TileValue::HabModule);
    assert_eq!(map.sample(&at(2, 2)), TileValue::Subtile(at(3, 3)));
    map.make_change(&at(3, 3), &TileValue::Empty);
    assert_eq!(map.sample(&at(2, 2)), TileValue::Empty);
    assert_eq!(map.sample(&at(3, 3)), TileValue::Empty);
}

#[test]
fn a_new_noise_source_replaces_cached_tiles() {
    let calls = Rc::new(Cell::new(0));
    let mut map = TileMap::new(counting_source(&calls, 0));
    map.make_single_tile_change(&at(5, 5), TileValue::HabModule);
    assert_eq!(map.sample(&at(0, 0)), TileValue::Empty);
    map.set_generator(counting_source(&calls, 1));
    assert_eq!(map.sample(&at(0, 0)), TileValue::Rock);
    assert_eq!(calls.get(), 2);
    assert_eq!(map.sample(&at(0, 0)), TileValue::Rock);
    assert_eq!(calls.get(), 2);
    assert_eq!(map.sample(&at(5, 5)), TileValue::HabModule);
}

/// What a map answers over a region, for a cache of the given capacity.
fn answers(capacity: usize) -> Vec<TileValue> {
    let mut map = TileMap::new(|x: i64, y: i64| (x * 7 + y * 3) % 2);
    map.resize_cache(capacity);
    map.make_change(&at(1, 1), &TileValue::HabModule);
    map.set_area(&at(-4, -4), &at(2, 3), TileValue::Error);
    let mut seen = Vec::new();
    for _ in 0..2 {
        for x in -6..6 {
            for y in -6..6 {
                seen.push(map.sample(&at(x, y)));
            }
        }
    }
    map.make_change(&at(1, 1), &TileValue::Rock);
    for x in -6..6 {
        for y in -6..6 {
            seen.push(map.sample(&at(x, y)));
        }
    }
    let clear = map.area_clear(&at(0, 0), &at(3, 3));
    seen.push(if clear { TileValue::Empty } else { TileValue::Rock });
    seen
}

#[test]
fn answers_do_not_depend_on_the_cache() {
    let uncached = answers(0);
    assert_eq!(answers(1), uncached);
    assert_eq!(answers(2), uncached);
    assert_eq!(answers(7), uncached);
    assert_eq!(answers(256), uncached);
    assert_eq!(answers(100_000), uncached);
}
