use tilemap::tile_world::{AreaChanges, GridCoord, TileValue, DENSE_SWITCH_POINT, PARTITION_SIZE};

/// The cell of a chunk that a running number stands for, column by column.
fn nth_cell(n: i64) -> GridCoord {
    GridCoord { x: n / 16, y: n % 16 }
}

/// Writes a value of its own to each of the first `count` cells of a chunk.
fn chunk_with(count: i64) -> AreaChanges {
    let mut chunk = AreaChanges::new();
    for n in 0..count {
        chunk.add_change(&nth_cell(n), &TileValue::Subtile(nth_cell(n)));
    }
    chunk
}

/// Checks that the first `count` cells hold their own value and the others none.
fn assert_holds_first(chunk: &AreaChanges, count: i64) {
    for n in 0..256 {
        let expected = if n < count { Some(TileValue::Subtile(nth_cell(n))) } else { None };
        assert_eq!(chunk.sample(&nth_cell(n)), expected, "cell number {}", n);
    }
}

#[test]
fn constants_have_their_values() {
    assert_eq!(PARTITION_SIZE, 16);
    assert_eq!(DENSE_SWITCH_POINT, 85);
    assert_eq!(
        DENSE_SWITCH_POINT,
        (PARTITION_SIZE as u32 * PARTITION_SIZE as u32) / 3
    );
}

#[test]
fn new_chunk_has_no_edits() {
    let chunk = AreaChanges::new();
    assert_holds_first(&chunk, 0);
}

#[test]
fn chunk_write_reads_back() {
    let mut chunk = AreaChanges::new();
    chunk.add_change(&GridCoord { x: 3, y: 5 }, &TileValue::Rock);
    assert_eq!(chunk.sample(&GridCoord { x: 3, y: 5 }), Some(TileValue::Rock));
    assert_eq!(chunk.sample(&GridCoord { x: 5, y: 3 }), None);
    assert_eq!(chunk.sample(&GridCoord { x: 3, y: 4 }), None);
}

#[test]
fn chunk_uses_only_the_offset_inside_the_chunk() {
    let mut chunk = AreaChanges::new();
    chunk.add_change(&GridCoord { x: -1, y: 17 }, &TileValue::Error);
    assert_eq!(chunk.sample(&GridCoord { x: 15, y: 1 }), Some(TileValue::Error));
    assert_eq!(chunk.sample(&GridCoord { x: 31, y: -15 }), Some(TileValue::Error));
    assert_eq!(chunk.sample(&GridCoord { x: 1, y: 15 }), None);
    chunk.add_change(&GridCoord { x: i64::MIN, y: i64::MAX }, &TileValue::HabModule);
    assert_eq!(chunk.sample(&GridCoord { x: 0, y: 15 }), Some(TileValue::HabModule));
}

#[test]
fn chunk_last_write_wins() {
    let mut chunk = AreaChanges::new();
    let pos = GridCoord { x: 7, y: 7 };
    chunk.add_change(&pos, &TileValue::Rock);
    chunk.add_change(&pos, &TileValue::Empty);
    assert_eq!(chunk.sample(&pos), Some(TileValue::Empty));
    let dense_count = 120;
    let mut dense = chunk_with(dense_count);
    dense.add_change(&nth_cell(3), &TileValue::Rock);
    dense.add_change(&nth_cell(3), &TileValue::HabModule);
    assert_eq!(dense.sample(&nth_cell(3)), Some(TileValue::HabModule));
    assert_eq!(dense.sample(&nth_cell(4)), Some(TileValue::Subtile(nth_cell(4))));
}

#[test]
fn edits_survive_below_the_switch_point() {
    assert_holds_first(&chunk_with(1), 1);
    assert_holds_first(&chunk_with(84), 84);
}

#[test]
fn edits_survive_at_the_switch_point() {
    assert_holds_first(&chunk_with(85), 85);
    assert_holds_first(&chunk_with(86), 86);
}

#[test]
fn edits_survive_above_the_switch_point() {
    assert_holds_first(&chunk_with(87), 87);
    assert_holds_first(&chunk_with(88), 88);
    assert_holds_first(&chunk_with(200), 200);
    assert_holds_first(&chunk_with(256), 256);
}

#[test]
fn rewriting_known_cells_keeps_every_edit() {
    let mut chunk = chunk_with(86);
    for _ in 0..3 {
        for n in 0..86 {
            chunk.add_change(&nth_cell(n), &TileValue::Subtile(nth_cell(n)));
        }
    }
    assert_holds_first(&chunk, 86);
}

#[test]
fn switch_to_dense_keeps_the_edits() {
    let mut empty = AreaChanges::new();
    empty.switch_to_dense();
    assert_holds_first(&empty, 0);

    let mut chunk = chunk_with(10);
    chunk.switch_to_dense();
    assert_holds_first(&chunk, 10);
    chunk.switch_to_dense();
    assert_holds_first(&chunk, 10);
    chunk.add_change(&nth_cell(10), &TileValue::Subtile(nth_cell(10)));
    assert_holds_first(&chunk, 11);
}

#[test]
fn switch_to_sparse_keeps_the_edits() {
    let mut sparse = chunk_with(10);
    sparse._switch_to_sparse();
    assert_holds_first(&sparse, 10);

    let mut chunk = chunk_with(100);
    chunk._switch_to_sparse();
    assert_holds_first(&chunk, 100);
    chunk.add_change(&nth_cell(100), &TileValue::Subtile(nth_cell(100)));
    assert_holds_first(&chunk, 101);
    chunk._switch_to_sparse();
    chunk.switch_to_dense();
    assert_holds_first(&chunk, 101);
}
