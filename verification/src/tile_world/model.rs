//! The model of the tile map: what a cell holds, given the edits and the noise
//! source, and what writing and placing do to the edits and to the read cache.

use vstd::prelude::*;
use crate::tile_world::cache::{lemma_touched, touched};
use crate::tile_world::grid::{
    area_cells, cell_key, chunk_origin, in_rect, key_cell, lemma_cell_key_round_trip,
    lemma_key_cell_round_trip, local_key, GridCoord, TileValue, DENSE_SWITCH_POINT,
};
use crate::tile_world::terrain::base_tile;

verus! {

/// Whether `generator` can serve as a noise source: it accepts every cell, and
/// two calls for one cell never give two levels.
pub open spec fn is_function<G: Fn(i64, i64) -> i64>(generator: G) -> bool {
    &&& forall|x: i64, y: i64| #[trigger] call_requires(generator, (x, y))
    &&& forall|x: i64, y: i64, first: i64, second: i64|
        #[trigger] call_ensures(generator, (x, y), first) && #[trigger] call_ensures(
            generator,
            (x, y),
            second,
        ) ==> first == second
}

/// The level of a cell: what a call of `generator` for the cell returns.
pub open spec fn level_of<G: Fn(i64, i64) -> i64>(generator: G, pos: GridCoord) -> int {
    (choose|level: i64| call_ensures(generator, (pos.x, pos.y), level)) as int
}

/// Whether `tile` is what `generator` gave for the cell in some call.
pub open spec fn generated<G: Fn(i64, i64) -> i64>(
    generator: G,
    pos: GridCoord,
    tile: TileValue,
) -> bool {
    exists|level: i64|
        #[trigger] call_ensures(generator, (pos.x, pos.y), level) && tile == base_tile(
            level as int,
        )
}

/// The tile of a cell: its edit where it has one, else the generated tile.
pub open spec fn resolve<G: Fn(i64, i64) -> i64>(
    edits: Map<GridCoord, TileValue>,
    generator: G,
    pos: GridCoord,
) -> TileValue {
    if edits.contains_key(pos) {
        edits[pos]
    } else {
        base_tile(level_of(generator, pos))
    }
}

/// The footprint registered for `kind`, one cell by one cell where none is.
pub open spec fn footprint_of(
    footprints: Map<TileValue, GridCoord>,
    kind: TileValue,
) -> GridCoord {
    if footprints.contains_key(kind) {
        footprints[kind]
    } else {
        GridCoord { x: 1, y: 1 }
    }
}

/// Whether a table of footprints can be registered: no kind stands in it
/// twice, and every footprint is at least one cell wide and one cell high.
pub open spec fn valid_footprints(table: Seq<(TileValue, GridCoord)>) -> bool {
    &&& forall|i: int, j: int|
        0 <= i < j < table.len() ==> (#[trigger] table[i]).0 != (#[trigger] table[j]).0
    &&& forall|i: int|
        0 <= i < table.len() ==> (#[trigger] table[i]).1.x >= 1 && table[i].1.y >= 1
}

/// The footprints that a table registers, by kind.
pub open spec fn registered(table: Seq<(TileValue, GridCoord)>) -> Map<TileValue, GridCoord> {
    Map::new(
        |kind: TileValue| exists|i: int| 0 <= i < table.len() && table[i].0 == kind,
        |kind: TileValue| table[choose|i: int| 0 <= i < table.len() && table[i].0 == kind].1,
    )
}

/// The top left cell of a footprint of the given size around `pos`: half the
/// size, rounded down, to the left of and above `pos`.
pub open spec fn footprint_corner(pos: GridCoord, size: GridCoord) -> GridCoord {
    GridCoord { x: (pos.x - size.x / 2) as i64, y: (pos.y - size.y / 2) as i64 }
}

/// Whether a footprint of the given size around `pos` keeps within the
/// coordinates that a cell can have.
pub open spec fn footprint_fits(pos: GridCoord, size: GridCoord) -> bool {
    &&& i64::MIN <= pos.x - size.x / 2
    &&& pos.x - size.x / 2 + size.x <= i64::MAX
    &&& i64::MIN <= pos.y - size.y / 2
    &&& pos.y - size.y / 2 + size.y <= i64::MAX
}

/// Whether the four bounds are those of the rectangle that starts at
/// `top_left` and spans `size` cells.
pub open spec fn bounds_of(
    top_left: GridCoord,
    size: GridCoord,
    x_min: i64,
    x_max: i64,
    y_min: i64,
    y_max: i64,
) -> bool {
    &&& x_min == top_left.x
    &&& y_min == top_left.y
    &&& x_max == top_left.x + size.x
    &&& y_max == top_left.y + size.y
}

/// Whether a walk from `low` up to `high` can stand at `at`: not before the
/// start, and not behind the end where there is anything to walk.
pub open spec fn on_the_way(low: int, high: int, at: int) -> bool {
    low <= at && (low < high ==> at <= high)
}

/// Whether a scan that goes row by row reaches `pos` before column `x` of
/// row `y`.
pub open spec fn comes_before(pos: GridCoord, x: int, y: int) -> bool {
    pos.y < y || (pos.y == y && pos.x < x)
}

/// `edits` with every cell of the rectangle set to `value`.
pub open spec fn filled(
    edits: Map<GridCoord, TileValue>,
    top_left: GridCoord,
    size: GridCoord,
    value: TileValue,
) -> Map<GridCoord, TileValue> {
    Map::new(
        |pos: GridCoord| in_rect(pos, top_left, size) || edits.contains_key(pos),
        |pos: GridCoord|
            if in_rect(pos, top_left, size) {
                value
            } else {
                edits[pos]
            },
    )
}

/// `edits` with the cells of the rectangle that come before column `x` of row
/// `y`, row by row, set to `value`.
pub open spec fn filled_until(
    edits: Map<GridCoord, TileValue>,
    top_left: GridCoord,
    size: GridCoord,
    value: TileValue,
    x: int,
    y: int,
) -> Map<GridCoord, TileValue> {
    Map::new(
        |pos: GridCoord|
            (in_rect(pos, top_left, size) && comes_before(pos, x, y)) || edits.contains_key(pos),
        |pos: GridCoord|
            if in_rect(pos, top_left, size) && comes_before(pos, x, y) {
                value
            } else {
                edits[pos]
            },
    )
}

/// The edits after an object with footprint `new_size` was placed at `pos`,
/// over a tile with footprint `old_size`. A footprint of more than one cell
/// that stood there, wide or high, is emptied first; then every cell of the
/// new footprint refers to `pos`, and `pos` itself holds `new_value`.
pub open spec fn placed(
    edits: Map<GridCoord, TileValue>,
    pos: GridCoord,
    old_size: GridCoord,
    new_size: GridCoord,
    new_value: TileValue,
) -> Map<GridCoord, TileValue> {
    let cleared = if old_size.x > 1 || old_size.y > 1 {
        filled(edits, footprint_corner(pos, old_size), old_size, TileValue::Empty)
    } else {
        edits
    };
    filled(cleared, footprint_corner(pos, new_size), new_size, TileValue::Subtile(pos)).insert(
        pos,
        new_value,
    )
}

/// The size of the rectangle whose first cell is `min_cell` and whose last
/// cell is `max_cell`: both corners belong to it.
pub open spec fn size_between(min_cell: GridCoord, max_cell: GridCoord) -> GridCoord {
    GridCoord {
        x: (max_cell.x - min_cell.x + 1) as i64,
        y: (max_cell.y - min_cell.y + 1) as i64,
    }
}

/// The chunks after `value` was written to `pos`. Every chunk is given by its
/// origin and holds its edits by local key and whether it keeps them densely.
/// The chunk of `pos` is there from the first write to it on; it takes the new
/// edit, and it is dense if it was dense or held more than
/// `DENSE_SWITCH_POINT` edits before the write. No other chunk changes.
pub open spec fn chunk_written(
    chunks: Map<GridCoord, (Map<u16, TileValue>, bool)>,
    pos: GridCoord,
    value: TileValue,
) -> Map<GridCoord, (Map<u16, TileValue>, bool)> {
    let origin = chunk_origin(pos);
    let (held, dense) = if chunks.contains_key(origin) {
        chunks[origin]
    } else {
        (Map::<u16, TileValue>::empty(), false)
    };
    chunks.insert(
        origin,
        (held.insert(local_key(pos), value), dense || held.len() > DENSE_SWITCH_POINT),
    )
}

/// The chunks after every write of `writes`, the first of them first.
pub open spec fn chunks_written(
    chunks: Map<GridCoord, (Map<u16, TileValue>, bool)>,
    writes: Seq<(GridCoord, TileValue)>,
) -> Map<GridCoord, (Map<u16, TileValue>, bool)>
    decreases writes.len(),
{
    if writes.len() == 0 {
        chunks
    } else {
        chunk_written(chunks_written(chunks, writes.drop_last()), writes.last().0, writes.last().1)
    }
}

/// The edits that chunks hold, by cell.
pub open spec fn edits_in(chunks: Map<GridCoord, (Map<u16, TileValue>, bool)>) -> Map<
    GridCoord,
    TileValue,
> {
    Map::new(
        |pos: GridCoord|
            chunks.contains_key(chunk_origin(pos)) && chunks[chunk_origin(pos)].0.contains_key(
                local_key(pos),
            ),
        |pos: GridCoord| chunks[chunk_origin(pos)].0[local_key(pos)],
    )
}

/// The writes that set each of `cells` to `value`.
pub open spec fn stores_of(cells: Seq<GridCoord>, value: TileValue) -> Seq<
    (GridCoord, TileValue),
> {
    cells.map_values(|pos: GridCoord| (pos, value))
}

/// The writes that place an object at `pos`: a footprint of more than one
/// cell that stood there is emptied, the new footprint is filled with
/// references to `pos`, and `pos` takes `new_value`.
pub open spec fn placement_writes(
    pos: GridCoord,
    old_size: GridCoord,
    new_size: GridCoord,
    new_value: TileValue,
) -> Seq<(GridCoord, TileValue)> {
    let cleared = if old_size.x > 1 || old_size.y > 1 {
        stores_of(area_cells(footprint_corner(pos, old_size), old_size), TileValue::Empty)
    } else {
        Seq::empty()
    };
    cleared + stores_of(
        area_cells(footprint_corner(pos, new_size), new_size),
        TileValue::Subtile(pos),
    ) + seq![(pos, new_value)]
}

/// Whether a cache entry agrees with the edits and the noise source: it holds
/// the tile of its cell, and where the cell has no edit, the noise source gave
/// that tile.
pub open spec fn is_current<G: Fn(i64, i64) -> i64>(
    edits: Map<GridCoord, TileValue>,
    generator: G,
    entry: (u128, TileValue),
) -> bool {
    let pos = key_cell(entry.0);
    &&& entry.1 == resolve(edits, generator, pos)
    &&& edits.contains_key(pos) || generated(generator, pos, entry.1)
}

/// The uses of the read cache when `value` is written to each of `cells`.
pub open spec fn writes_of(cells: Seq<GridCoord>, value: TileValue) -> Seq<(u128, TileValue)> {
    cells.map_values(|pos: GridCoord| (cell_key(pos), value))
}

/// The uses of the read cache when each of `cells` is sampled.
pub open spec fn reads_of<G: Fn(i64, i64) -> i64>(
    edits: Map<GridCoord, TileValue>,
    generator: G,
    cells: Seq<GridCoord>,
) -> Seq<(u128, TileValue)> {
    cells.map_values(|pos: GridCoord| (cell_key(pos), resolve(edits, generator, pos)))
}

/// What a walk over `cells` meets: each cell with its tile and with the
/// footprint of that tile, in the order of `cells`.
pub open spec fn visits_of<G: Fn(i64, i64) -> i64>(
    edits: Map<GridCoord, TileValue>,
    generator: G,
    footprints: Map<TileValue, GridCoord>,
    cells: Seq<GridCoord>,
) -> Seq<(GridCoord, TileValue, GridCoord)> {
    cells.map_values(
        |pos: GridCoord|
            (
                pos,
                resolve(edits, generator, pos),
                footprint_of(footprints, resolve(edits, generator, pos)),
            ),
    )
}

/// How many of `cells` a scan for a tile that is not `Empty` samples: all up
/// to the first such tile, that one included.
pub open spec fn scan_length<G: Fn(i64, i64) -> i64>(
    edits: Map<GridCoord, TileValue>,
    generator: G,
    cells: Seq<GridCoord>,
) -> nat
    decreases cells.len(),
{
    if cells.len() == 0 {
        0
    } else if resolve(edits, generator, cells[0]) != TileValue::Empty {
        1
    } else {
        1 + scan_length(edits, generator, cells.drop_first())
    }
}

/// The uses of the read cache when an object is placed at `pos`: the tile that
/// stood there is sampled, a footprint of more than one cell is emptied, the
/// new footprint is filled, and the anchor is written.
pub open spec fn placement_uses(
    pos: GridCoord,
    old_value: TileValue,
    old_size: GridCoord,
    new_size: GridCoord,
    new_value: TileValue,
) -> Seq<(u128, TileValue)> {
    let cleared = if old_size.x > 1 || old_size.y > 1 {
        writes_of(area_cells(footprint_corner(pos, old_size), old_size), TileValue::Empty)
    } else {
        Seq::empty()
    };
    seq![(cell_key(pos), old_value)] + cleared + writes_of(
        area_cells(footprint_corner(pos, new_size), new_size),
        TileValue::Subtile(pos),
    ) + seq![(cell_key(pos), new_value)]
}

/// A cache whose entries agree with the edits still agrees with them after
/// `value` was written to `pos` and to the cache.
pub proof fn lemma_write_keeps_current<G: Fn(i64, i64) -> i64>(
    edits: Map<GridCoord, TileValue>,
    generator: G,
    entries: Seq<(u128, TileValue)>,
    capacity: nat,
    pos: GridCoord,
    value: TileValue,
)
    requires
        forall|i: int|
            0 <= i < entries.len() ==> is_current(edits, generator, #[trigger] entries[i]),
    ensures
        forall|i: int|
            0 <= i < touched(entries, capacity, cell_key(pos), value).len() ==> is_current(
                edits.insert(pos, value),
                generator,
                #[trigger] touched(entries, capacity, cell_key(pos), value)[i],
            ),
{
    let after = touched(entries, capacity, cell_key(pos), value);
    lemma_touched(entries, capacity, cell_key(pos), value);
    lemma_cell_key_round_trip(pos);
    assert forall|i: int| 0 <= i < after.len() implies is_current(
        edits.insert(pos, value),
        generator,
        #[trigger] after[i],
    ) by {
        let entry = after[i];
        if entry != (cell_key(pos), value) {
            let j = choose|j: int| 0 <= j < entries.len() && entries[j] == entry;
            assert(is_current(edits, generator, entries[j]));
            lemma_key_cell_round_trip(entry.0);
            assert(key_cell(entry.0) != pos);
        }
    }
}

/// A cache whose entries agree with the edits still agrees with them after the
/// tile of `pos` was put in front.
pub proof fn lemma_read_keeps_current<G: Fn(i64, i64) -> i64>(
    edits: Map<GridCoord, TileValue>,
    generator: G,
    entries: Seq<(u128, TileValue)>,
    capacity: nat,
    pos: GridCoord,
    tile: TileValue,
)
    requires
        forall|i: int|
            0 <= i < entries.len() ==> is_current(edits, generator, #[trigger] entries[i]),
        is_current(edits, generator, (cell_key(pos), tile)),
    ensures
        forall|i: int|
            0 <= i < touched(entries, capacity, cell_key(pos), tile).len() ==> is_current(
                edits,
                generator,
                #[trigger] touched(entries, capacity, cell_key(pos), tile)[i],
            ),
{
    let after = touched(entries, capacity, cell_key(pos), tile);
    lemma_touched(entries, capacity, cell_key(pos), tile);
    assert forall|i: int| 0 <= i < after.len() implies is_current(
        edits,
        generator,
        #[trigger] after[i],
    ) by {
        let entry = after[i];
        if entry != (cell_key(pos), tile) {
            let j = choose|j: int| 0 <= j < entries.len() && entries[j] == entry;
            assert(is_current(edits, generator, entries[j]));
        }
    }
}

/// One more write after `writes` changes what `writes` left.
pub proof fn lemma_chunks_written_push(
    chunks: Map<GridCoord, (Map<u16, TileValue>, bool)>,
    writes: Seq<(GridCoord, TileValue)>,
    pos: GridCoord,
    value: TileValue,
)
    ensures
        chunks_written(chunks, writes.push((pos, value))) == chunk_written(
            chunks_written(chunks, writes),
            pos,
            value,
        ),
{
    assert(writes.push((pos, value)).drop_last() =~= writes);
}

/// The writes of `first` followed by those of `second` leave what those of
/// `second` leave of what those of `first` left.
pub proof fn lemma_chunks_written_concat(
    chunks: Map<GridCoord, (Map<u16, TileValue>, bool)>,
    first: Seq<(GridCoord, TileValue)>,
    second: Seq<(GridCoord, TileValue)>,
)
    ensures
        chunks_written(chunks, first + second) == chunks_written(
            chunks_written(chunks, first),
            second,
        ),
    decreases second.len(),
{
    if second.len() == 0 {
        assert(first + second =~= first);
    } else {
        lemma_chunks_written_concat(chunks, first, second.drop_last());
        assert((first + second).drop_last() =~= first + second.drop_last());
    }
}

/// One more cell set is one more write.
pub proof fn lemma_stores_of_push(cells: Seq<GridCoord>, pos: GridCoord, value: TileValue)
    ensures
        stores_of(cells.push(pos), value) == stores_of(cells, value).push((pos, value)),
{
    assert(stores_of(cells.push(pos), value) =~= stores_of(cells, value).push((pos, value)));
}

/// One more cell written is one more use of the read cache.
pub proof fn lemma_writes_of_push(cells: Seq<GridCoord>, pos: GridCoord, value: TileValue)
    ensures
        writes_of(cells.push(pos), value) == writes_of(cells, value).push((cell_key(pos), value)),
{
    assert(writes_of(cells.push(pos), value) =~= writes_of(cells, value).push(
        (cell_key(pos), value),
    ));
}

/// One more cell sampled is one more use of the read cache.
pub proof fn lemma_reads_of_push<G: Fn(i64, i64) -> i64>(
    edits: Map<GridCoord, TileValue>,
    generator: G,
    cells: Seq<GridCoord>,
    pos: GridCoord,
)
    ensures
        reads_of(edits, generator, cells.push(pos)) == reads_of(edits, generator, cells).push(
            (cell_key(pos), resolve(edits, generator, pos)),
        ),
{
    assert(reads_of(edits, generator, cells.push(pos)) =~= reads_of(
        edits,
        generator,
        cells,
    ).push((cell_key(pos), resolve(edits, generator, pos))));
}

/// One more cell walked is one more visit.
pub proof fn lemma_visits_of_push<G: Fn(i64, i64) -> i64>(
    edits: Map<GridCoord, TileValue>,
    generator: G,
    footprints: Map<TileValue, GridCoord>,
    cells: Seq<GridCoord>,
    pos: GridCoord,
)
    ensures
        visits_of(edits, generator, footprints, cells.push(pos)) == visits_of(
            edits,
            generator,
            footprints,
            cells,
        ).push(
            (
                pos,
                resolve(edits, generator, pos),
                footprint_of(footprints, resolve(edits, generator, pos)),
            ),
        ),
{
    assert(visits_of(edits, generator, footprints, cells.push(pos)) =~= visits_of(
        edits,
        generator,
        footprints,
        cells,
    ).push(
        (
            pos,
            resolve(edits, generator, pos),
            footprint_of(footprints, resolve(edits, generator, pos)),
        ),
    ));
}

/// A scan that found every cell before `blocked` to be `Empty`, and `blocked`
/// not, has sampled the cells up to `blocked` and no more.
pub proof fn lemma_scan_stops<G: Fn(i64, i64) -> i64>(
    edits: Map<GridCoord, TileValue>,
    generator: G,
    cells: Seq<GridCoord>,
    before: Seq<GridCoord>,
    blocked: GridCoord,
)
    requires
        before.len() < cells.len(),
        cells.take(before.len() as int) == before,
        cells[before.len() as int] == blocked,
        forall|i: int| 0 <= i < before.len() ==> resolve(edits, generator, #[trigger] before[i])
            == TileValue::Empty,
        resolve(edits, generator, blocked) != TileValue::Empty,
    ensures
        cells.take(scan_length(edits, generator, cells) as int) == before.push(blocked),
{
    let count = before.len() as int;
    assert forall|i: int| 0 <= i < count implies resolve(edits, generator, #[trigger] cells[i])
        == TileValue::Empty by {
        assert(cells[i] == before[i]);
    }
    lemma_scan_length_skip(edits, generator, cells, count);
    assert(cells.skip(count)[0] == cells[count]);
    assert(cells.take(count + 1) =~= before.push(blocked));
}

/// A scan that found every cell to be `Empty` has sampled them all.
pub proof fn lemma_scan_completes<G: Fn(i64, i64) -> i64>(
    edits: Map<GridCoord, TileValue>,
    generator: G,
    cells: Seq<GridCoord>,
)
    requires
        forall|i: int| 0 <= i < cells.len() ==> resolve(edits, generator, #[trigger] cells[i])
            == TileValue::Empty,
    ensures
        cells.take(scan_length(edits, generator, cells) as int) == cells,
{
    lemma_scan_length_skip(edits, generator, cells, cells.len() as int);
    assert(cells.skip(cells.len() as int) =~= Seq::<GridCoord>::empty());
    assert(cells.take(cells.len() as int) =~= cells);
}

/// A scan that found the first `count` of `cells` to be `Empty` samples those,
/// and of the others what a scan of them alone samples.
pub proof fn lemma_scan_length_skip<G: Fn(i64, i64) -> i64>(
    edits: Map<GridCoord, TileValue>,
    generator: G,
    cells: Seq<GridCoord>,
    count: int,
)
    requires
        0 <= count <= cells.len(),
        forall|i: int| 0 <= i < count ==> resolve(edits, generator, #[trigger] cells[i])
            == TileValue::Empty,
    ensures
        scan_length(edits, generator, cells) == count + scan_length(
            edits,
            generator,
            cells.skip(count),
        ),
    decreases count,
{
    if count == 0 {
        assert(cells.skip(0) =~= cells);
    } else {
        let rest = cells.drop_first();
        assert forall|i: int| 0 <= i < count - 1 implies resolve(
            edits,
            generator,
            #[trigger] rest[i],
        ) == TileValue::Empty by {
            assert(rest[i] == cells[i + 1]);
        }
        lemma_scan_length_skip(edits, generator, rest, count - 1);
        assert(rest.skip(count - 1) =~= cells.skip(count));
        assert(resolve(edits, generator, cells[0]) == TileValue::Empty);
    }
}

} // verus!
