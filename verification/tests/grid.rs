use tilemap::tile_world::grid::{cell_key_of, chunk_origin_of, local_offset_of, sparse_key_of};
use tilemap::tile_world::GridCoord;

#[test]
fn offsets_inside_a_chunk() {
    assert_eq!(local_offset_of(0), 0);
    assert_eq!(local_offset_of(15), 15);
    assert_eq!(local_offset_of(16), 0);
    assert_eq!(local_offset_of(37), 5);
    assert_eq!(local_offset_of(-1), 15);
    assert_eq!(local_offset_of(-16), 0);
    assert_eq!(local_offset_of(-17), 15);
    assert_eq!(local_offset_of(i64::MAX), 15);
    assert_eq!(local_offset_of(i64::MIN), 0);
}

#[test]
fn sparse_keys_hold_both_offsets() {
    assert_eq!(sparse_key_of(0, 0), 0);
    assert_eq!(sparse_key_of(3, 5), 0x0305);
    assert_eq!(sparse_key_of(15, 15), 0x0f0f);
    assert_eq!(sparse_key_of(1, 0), 256);
    assert_eq!(sparse_key_of(0, 1), 1);
}

#[test]
fn chunk_origins_are_aligned() {
    assert_eq!(chunk_origin_of(&GridCoord { x: 0, y: 0 }), GridCoord { x: 0, y: 0 });
    assert_eq!(chunk_origin_of(&GridCoord { x: 15, y: 16 }), GridCoord { x: 0, y: 16 });
    assert_eq!(chunk_origin_of(&GridCoord { x: 17, y: -1 }), GridCoord { x: 16, y: -16 });
    assert_eq!(chunk_origin_of(&GridCoord { x: -16, y: -17 }), GridCoord { x: -16, y: -32 });
    assert_eq!(
        chunk_origin_of(&GridCoord { x: i64::MAX, y: i64::MIN }),
        GridCoord { x: i64::MAX - 15, y: i64::MIN }
    );
}

#[test]
fn cell_keys_are_exact() {
    let half: u128 = 1 << 63;
    let row: u128 = 1 << 64;
    assert_eq!(cell_key_of(&GridCoord { x: i64::MIN, y: i64::MIN }), 0);
    assert_eq!(cell_key_of(&GridCoord { x: i64::MIN, y: i64::MIN + 1 }), 1);
    assert_eq!(cell_key_of(&GridCoord { x: i64::MIN + 1, y: i64::MIN }), row);
    assert_eq!(cell_key_of(&GridCoord { x: 0, y: 0 }), half * row + half);
    assert_eq!(cell_key_of(&GridCoord { x: 2, y: -3 }), (half + 2) * row + half - 3);
    assert_eq!(cell_key_of(&GridCoord { x: i64::MAX, y: i64::MAX }), u128::MAX);
}

#[test]
fn cell_keys_tell_cells_apart() {
    let mut keys: Vec<u128> = Vec::new();
    for x in -3..3 {
        for y in -3..3 {
            keys.push(cell_key_of(&GridCoord { x, y }));
        }
    }
    keys.push(cell_key_of(&GridCoord { x: 0, y: 1 << 40 }));
    keys.push(cell_key_of(&GridCoord { x: 1 << 40, y: 0 }));
    let count = keys.len();
    keys.sort();
    keys.dedup();
    assert_eq!(keys.len(), count);
}
