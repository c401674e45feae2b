//! What holds of the tile map whatever is written to it, stated over the
//! models that the contracts of the map and of its chunks use.

use vstd::prelude::*;
use crate::tile_world::grid::{
    area_cells, chunk_origin, in_rect, key_cell, lemma_area_cells_cover,
    lemma_chunk_split_is_injective, local_key, GridCoord, TileValue, DENSE_SWITCH_POINT,
    PARTITION_AREA, PARTITION_SIZE,
};
use crate::tile_world::overlay::AreaChanges;
use crate::tile_world::map::TileMap;
use crate::tile_world::model::{
    chunk_written, chunks_written, edits_in, footprint_corner, placed, resolve, visits_of,
};
use crate::tile_world::terrain::base_tile;

verus! {

/// The edits of one chunk after the writes of `log`, the first of them first.
pub open spec fn written(log: Seq<(GridCoord, TileValue)>) -> Map<u16, TileValue>
    decreases log.len(),
{
    if log.len() == 0 {
        Map::empty()
    } else {
        written(log.drop_last()).insert(local_key(log.last().0), log.last().1)
    }
}

/// One more write changes the edits of a chunk as `add_change` does: the new
/// value sits at the local key of its cell, and the other edits stay.
pub proof fn law_write_extends_log(
    log: Seq<(GridCoord, TileValue)>,
    pos: GridCoord,
    value: TileValue,
)
    ensures
        written(log.push((pos, value))) == written(log).insert(local_key(pos), value),
{
    assert(log.push((pos, value)).drop_last() =~= log);
}

/// A cell reads back what was placed on it: whatever stood there before, and
/// whatever the two footprints are, the tile of `pos` is `new_value`.
pub proof fn law_placed_tile_reads_back<G: Fn(i64, i64) -> i64>(
    edits: Map<GridCoord, TileValue>,
    generator: G,
    pos: GridCoord,
    old_size: GridCoord,
    new_size: GridCoord,
    new_value: TileValue,
)
    ensures
        resolve(placed(edits, pos, old_size, new_size, new_value), generator, pos) == new_value,
{
}

/// However many writes a chunk has taken, and whichever storage it has moved
/// to on the way, a cell holds the value of the last write to it: every write
/// that no later write to the same cell follows is still there.
pub proof fn law_writes_survive(log: Seq<(GridCoord, TileValue)>, i: int)
    requires
        0 <= i < log.len(),
        forall|j: int| i < j < log.len() ==> local_key(log[j].0) != local_key(log[i].0),
    ensures
        written(log).contains_key(local_key(log[i].0)),
        written(log)[local_key(log[i].0)] == log[i].1,
    decreases log.len(),
{
    if i < log.len() - 1 {
        let earlier = log.drop_last();
        assert(earlier[i] == log[i]);
        assert forall|j: int| i < j < earlier.len() implies local_key(earlier[j].0) != local_key(
            earlier[i].0,
        ) by {
            assert(earlier[j] == log[j]);
        }
        law_writes_survive(earlier, i);
    }
}

/// Only written cells hold an edit: a key that no write of `log` went to is
/// absent.
pub proof fn law_unwritten_cells_stay_unset(log: Seq<(GridCoord, TileValue)>, key: u16)
    requires
        forall|j: int| 0 <= j < log.len() ==> local_key(log[j].0) != key,
    ensures
        !written(log).contains_key(key),
    decreases log.len(),
{
    if log.len() > 0 {
        let earlier = log.drop_last();
        assert forall|j: int| 0 <= j < earlier.len() implies local_key(earlier[j].0) != key by {
            assert(earlier[j] == log[j]);
        }
        law_unwritten_cells_stay_unset(earlier, key);
    }
}

/// Placing an object fills its footprint: the anchor holds the object, every
/// other cell of the footprint refers to the anchor, a cell of the footprint
/// that stood there before is `Empty` where that footprint held more than one
/// cell, and every other cell keeps its tile.
pub proof fn law_footprint_placement<G: Fn(i64, i64) -> i64>(
    edits: Map<GridCoord, TileValue>,
    generator: G,
    pos: GridCoord,
    old_size: GridCoord,
    new_size: GridCoord,
    new_value: TileValue,
    cell: GridCoord,
)
    ensures
        ({
            let after = placed(edits, pos, old_size, new_size, new_value);
            let within_new = in_rect(cell, footprint_corner(pos, new_size), new_size);
            let within_old = (old_size.x > 1 || old_size.y > 1) && in_rect(
                cell,
                footprint_corner(pos, old_size),
                old_size,
            );
            resolve(after, generator, cell) == if cell == pos {
                new_value
            } else if within_new {
                TileValue::Subtile(pos)
            } else if within_old {
                TileValue::Empty
            } else {
                resolve(edits, generator, cell)
            }
        }),
{
}

/// Writing `Empty` over the anchor of an object that covers more than one
/// cell, in width or in height, empties the whole footprint of that object.
pub proof fn law_removal_empties_footprint<G: Fn(i64, i64) -> i64>(
    edits: Map<GridCoord, TileValue>,
    generator: G,
    pos: GridCoord,
    size: GridCoord,
    cell: GridCoord,
)
    requires
        size.x > 1 || size.y > 1,
        in_rect(cell, footprint_corner(pos, size), size),
    ensures
        resolve(
            placed(edits, pos, size, GridCoord { x: 1, y: 1 }, TileValue::Empty),
            generator,
            cell,
        ) == TileValue::Empty,
{
}

/// A rectangle with a cell that is not `Empty` is not clear; one `Rock` is
/// enough.
pub proof fn law_one_tile_blocks_area<G: Fn(i64, i64) -> i64>(
    edits: Map<GridCoord, TileValue>,
    generator: G,
    top_left: GridCoord,
    size: GridCoord,
    cell: GridCoord,
)
    requires
        in_rect(cell, top_left, size),
        resolve(edits, generator, cell) != TileValue::Empty,
    ensures
        !(forall|pos: GridCoord|
            in_rect(pos, top_left, size) ==> #[trigger] resolve(edits, generator, pos)
                == TileValue::Empty),
{
}

/// What a cell holds depends on the edits and on the noise source alone: two
/// maps that agree in both agree in every tile, whatever their read caches
/// hold and however large they are. So sampling again gives the same tile, and
/// resizing the cache or switching it off changes no answer.
pub proof fn law_tiles_ignore_the_cache<G: Fn(i64, i64) -> i64>(
    first: &TileMap<G>,
    second: &TileMap<G>,
    pos: GridCoord,
)
    requires
        first.edits() == second.edits(),
        first.generator() == second.generator(),
    ensures
        first.tile_at(pos) == second.tile_at(pos),
{
}

/// What the read cache of a well-formed map holds for a cell is the tile of
/// that cell.
pub proof fn law_cache_agrees_with_map<G: Fn(i64, i64) -> i64>(map: &TileMap<G>, i: int)
    requires
        map.wf(),
        0 <= i < map.cache_entries().len(),
    ensures
        map.cache_entries()[i].1 == map.tile_at(key_cell(map.cache_entries()[i].0)),
{
    map.lemma_wf_facts();
}

/// A walk over a rectangle meets every cell of it once and no other cell: it
/// makes one visit for each cell, `size.x * size.y` in all where both are
/// positive and none else, no two visits are to one cell, and every visit is
/// to a cell of the rectangle, with the tile of that cell.
pub proof fn law_walk_meets_each_cell_once<G: Fn(i64, i64) -> i64>(
    edits: Map<GridCoord, TileValue>,
    generator: G,
    footprints: Map<TileValue, GridCoord>,
    top_left: GridCoord,
    size: GridCoord,
)
    requires
        top_left.x + size.x <= i64::MAX,
        top_left.y + size.y <= i64::MAX,
    ensures
        ({
            let visits = visits_of(edits, generator, footprints, area_cells(top_left, size));
            &&& visits.len() == if size.x > 0 && size.y > 0 {
                size.x * size.y
            } else {
                0
            }
            &&& forall|i: int|
                0 <= i < visits.len() ==> in_rect((#[trigger] visits[i]).0, top_left, size)
                    && visits[i].1 == resolve(edits, generator, visits[i].0)
            &&& forall|i: int, j: int|
                0 <= i < j < visits.len() ==> (#[trigger] visits[i]).0 != (#[trigger] visits[j]).0
            &&& forall|pos: GridCoord|
                in_rect(pos, top_left, size) ==> exists|i: int|
                    0 <= i < visits.len() && (#[trigger] visits[i]).0 == pos
        }),
{
    let cells = area_cells(top_left, size);
    let visits = visits_of(edits, generator, footprints, cells);
    lemma_area_cells_cover(top_left, size);
    assert forall|i: int| 0 <= i < visits.len() implies in_rect(
        (#[trigger] visits[i]).0,
        top_left,
        size,
    ) && visits[i].1 == resolve(edits, generator, visits[i].0) by {
        assert(cells.contains(cells[i]));
    }
    assert forall|pos: GridCoord| in_rect(pos, top_left, size) implies exists|i: int|
        0 <= i < visits.len() && (#[trigger] visits[i]).0 == pos by {
        assert(cells.contains(pos));
        let i = choose|i: int| 0 <= i < cells.len() && cells[i] == pos;
        assert(visits[i].0 == pos);
    }
}

/// A chunk that is there stays, whatever is written, and a chunk that keeps
/// its edits densely goes on doing so.
pub proof fn law_chunks_stay(
    chunks: Map<GridCoord, (Map<u16, TileValue>, bool)>,
    writes: Seq<(GridCoord, TileValue)>,
    origin: GridCoord,
)
    requires
        chunks.contains_key(origin),
    ensures
        chunks_written(chunks, writes).contains_key(origin),
        chunks[origin].1 ==> chunks_written(chunks, writes)[origin].1,
    decreases writes.len(),
{
    if writes.len() > 0 {
        law_chunks_stay(chunks, writes.drop_last(), origin);
    }
}

/// A chunk comes to be only by a write to one of its cells: an origin that no
/// write of `writes` lies in has no chunk afterwards unless it had one before.
pub proof fn law_chunks_come_from_writes(
    chunks: Map<GridCoord, (Map<u16, TileValue>, bool)>,
    writes: Seq<(GridCoord, TileValue)>,
    origin: GridCoord,
)
    requires
        !chunks.contains_key(origin),
        forall|i: int| 0 <= i < writes.len() ==> chunk_origin(writes[i].0) != origin,
    ensures
        !chunks_written(chunks, writes).contains_key(origin),
    decreases writes.len(),
{
    if writes.len() > 0 {
        let earlier = writes.drop_last();
        assert forall|i: int| 0 <= i < earlier.len() implies chunk_origin(earlier[i].0)
            != origin by {
            assert(earlier[i] == writes[i]);
        }
        law_chunks_come_from_writes(chunks, earlier, origin);
    }
}

/// What a write does to the chunks is what it does to the edits: the written
/// cell holds the new value, and no other edit changes.
pub proof fn law_chunk_write_is_an_edit(
    chunks: Map<GridCoord, (Map<u16, TileValue>, bool)>,
    pos: GridCoord,
    value: TileValue,
)
    ensures
        edits_in(chunk_written(chunks, pos, value)) == edits_in(chunks).insert(pos, value),
{
    let after = chunk_written(chunks, pos, value);
    assert forall|other: GridCoord|
        edits_in(after).contains_key(other) == edits_in(chunks).insert(pos, value).contains_key(
            other,
        ) && (edits_in(after).contains_key(other) ==> edits_in(after)[other] == edits_in(
            chunks,
        ).insert(pos, value)[other]) by {
        if chunk_origin(other) == chunk_origin(pos) && local_key(other) == local_key(pos) {
            lemma_chunk_split_is_injective(other, pos);
        }
    }
    assert(edits_in(after) =~= edits_in(chunks).insert(pos, value));
}

/// A chunk is a square of `PARTITION_SIZE` cells each way, and it turns dense
/// above a third of its cells.
pub proof fn law_chunk_constants_fit()
    ensures
        PARTITION_AREA == PARTITION_SIZE * PARTITION_SIZE,
        DENSE_SWITCH_POINT == PARTITION_AREA / 3,
{
}

/// The keys of a chunk's edits are offsets inside the chunk, whichever storage
/// holds them.
pub proof fn law_chunk_keys_are_offsets(chunk: &AreaChanges)
    requires
        chunk.wf(),
    ensures
        forall|key: u16| #[trigger]
            chunk@.contains_key(key) ==> key / 256 < PARTITION_SIZE && key % 256 < PARTITION_SIZE,
{
    chunk.lemma_keys_are_local();
}

/// A generated tile is `Empty` or `Rock`, whatever the level.
pub proof fn law_generated_tiles_are_valid(level: int)
    ensures
        base_tile(level) == TileValue::Empty || base_tile(level) == TileValue::Rock,
{
}

} // verus!
