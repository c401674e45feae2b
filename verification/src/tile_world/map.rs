//! The tile map: generated tiles, the edits laid over them chunk by chunk, the
//! footprints of objects that cover several cells, and the read cache.

use lru::LruCache;
use std::collections::HashMap;
use vstd::prelude::*;
use crate::tile_world::cache::{
    lemma_touched, lemma_touched_all_concat, lemma_touched_all_push, lemma_without_key,
    lru_capacity, lru_clear, lru_entries, lru_get, lru_new, lru_put, lru_resize, shrunk, touched,
    touched_all,
};
use crate::tile_world::grid::{
    area_cells, cell_key, cell_key_of, cells_before, chunk_origin, chunk_origin_of, in_rect,
    lemma_area_cells_cover, lemma_area_cells_index, lemma_cell_key_round_trip,
    lemma_chunk_split_is_injective, lemma_walk_end, lemma_walk_next_row, lemma_walk_start,
    lemma_walk_step, local_key, GridCoord, TileValue, DENSE_SWITCH_POINT,
};
use crate::tile_world::model::{
    bounds_of, chunk_written, chunks_written, edits_in, filled, filled_until, footprint_corner,
    footprint_fits, footprint_of, generated, is_current, is_function, lemma_chunks_written_concat,
    lemma_chunks_written_push, lemma_read_keeps_current, lemma_reads_of_push,
    lemma_scan_completes, lemma_scan_stops, lemma_stores_of_push, lemma_visits_of_push,
    lemma_write_keeps_current, lemma_writes_of_push, level_of, on_the_way, placed,
    placement_uses, placement_writes, reads_of, registered, resolve, scan_length, size_between,
    stores_of, valid_footprints, visits_of, writes_of,
};
use crate::tile_world::overlay::AreaChanges;
use crate::tile_world::terrain::{base_tile, base_tile_of};

verus! {

/// Number of entries that the read cache of a new map holds at most.
pub const DEFAULT_CACHE_CAPACITY: usize = 256;

/// The edits that a dictionary of chunks holds, by cell.
spec fn edits_of(chunks: Map<u128, AreaChanges>) -> Map<GridCoord, TileValue> {
    Map::new(
        |pos: GridCoord|
            chunks.contains_key(cell_key(chunk_origin(pos))) && chunks[cell_key(
                chunk_origin(pos),
            )].edit_at(pos) is Some,
        |pos: GridCoord| chunks[cell_key(chunk_origin(pos))].edit_at(pos)->0,
    )
}

/// The edits of the chunk that holds `pos`, none where the dictionary has no
/// such chunk.
spec fn chunk_edits(chunks: Map<u128, AreaChanges>, pos: GridCoord) -> Map<
    u16,
    TileValue,
> {
    if chunks.contains_key(cell_key(chunk_origin(pos))) {
        chunks[cell_key(chunk_origin(pos))]@
    } else {
        Map::empty()
    }
}

/// The chunks that a dictionary holds, by origin: the edits of each and
/// whether it keeps them densely.
spec fn chunks_of(stored: Map<u128, AreaChanges>) -> Map<GridCoord, (Map<u16, TileValue>, bool)> {
    Map::new(
        |origin: GridCoord| stored.contains_key(cell_key(origin)),
        |origin: GridCoord| (stored[cell_key(origin)]@, stored[cell_key(origin)].is_dense()),
    )
}

/// The edits of a dictionary are the edits that its chunks hold.
proof fn lemma_edits_of_chunks(stored: Map<u128, AreaChanges>)
    ensures
        edits_of(stored) == edits_in(chunks_of(stored)),
{
    assert(edits_of(stored) =~= edits_in(chunks_of(stored)));
}

/// Storing the chunk of `pos` after one more write to it changes the chunks
/// as one write does.
proof fn lemma_chunk_stored(
    stored: Map<u128, AreaChanges>,
    chunk: AreaChanges,
    pos: GridCoord,
    value: TileValue,
)
    requires
        chunk@ == chunk_edits(stored, pos).insert(local_key(pos), value),
        chunk.is_dense() == (stored.contains_key(cell_key(chunk_origin(pos))) && stored[cell_key(
            chunk_origin(pos),
        )].is_dense() || chunk_edits(stored, pos).len() > DENSE_SWITCH_POINT),
    ensures
        chunks_of(stored.insert(cell_key(chunk_origin(pos)), chunk)) == chunk_written(
            chunks_of(stored),
            pos,
            value,
        ),
{
    let after = stored.insert(cell_key(chunk_origin(pos)), chunk);
    assert forall|origin: GridCoord|
        chunks_of(after).contains_key(origin) == chunk_written(
            chunks_of(stored),
            pos,
            value,
        ).contains_key(origin) && (chunks_of(after).contains_key(origin) ==> chunks_of(
            after,
        )[origin] == chunk_written(chunks_of(stored), pos, value)[origin]) by {
        lemma_cell_key_round_trip(origin);
        lemma_cell_key_round_trip(chunk_origin(pos));
    }
    assert(chunks_of(after) =~= chunk_written(chunks_of(stored), pos, value));
}

/// Storing a chunk that holds one more edit, for `pos`, adds that edit and
/// changes no other.
proof fn lemma_chunk_write(
    chunks: Map<u128, AreaChanges>,
    chunk: AreaChanges,
    pos: GridCoord,
    value: TileValue,
)
    requires
        chunk@ == chunk_edits(chunks, pos).insert(local_key(pos), value),
    ensures
        edits_of(chunks.insert(cell_key(chunk_origin(pos)), chunk)) == edits_of(chunks).insert(
            pos,
            value,
        ),
{
    let after = chunks.insert(cell_key(chunk_origin(pos)), chunk);
    assert forall|other: GridCoord|
        edits_of(after).contains_key(other) == edits_of(chunks).insert(pos, value).contains_key(
            other,
        ) && (edits_of(after).contains_key(other) ==> edits_of(after)[other] == edits_of(
            chunks,
        ).insert(pos, value)[other]) by {
        lemma_cell_key_round_trip(chunk_origin(other));
        lemma_cell_key_round_trip(chunk_origin(pos));
        if chunk_origin(other) == chunk_origin(pos) {
            if local_key(other) == local_key(pos) {
                lemma_chunk_split_is_injective(other, pos);
            }
        }
    }
    assert(edits_of(after) =~= edits_of(chunks).insert(pos, value));
}

/// Whether a footprint of the given size around `pos` keeps within the
/// coordinates that a cell can have.
pub fn footprint_fits_at(pos: &GridCoord, size: &GridCoord) -> (fits: bool)
    requires
        size.x >= 1,
        size.y >= 1,
    ensures
        fits == footprint_fits(*pos, *size),
{
    let left: i128 = pos.x as i128 - (size.x / 2) as i128;
    let top: i128 = pos.y as i128 - (size.y / 2) as i128;
    i64::MIN as i128 <= left && left + size.x as i128 <= i64::MAX as i128 && i64::MIN as i128 <= top
        && top + size.y as i128 <= i64::MAX as i128
}

/// Whether a table of footprints can be registered.
pub fn footprints_are_valid(table: &Vec<(TileValue, GridCoord)>) -> (valid: bool)
    ensures
        valid == valid_footprints(table@),
{
    let mut i: usize = 0;
    while i < table.len()
        invariant
            i <= table@.len(),
            forall|a: int, b: int|
                0 <= a < b < i ==> (#[trigger] table@[a]).0 != (#[trigger] table@[b]).0,
            forall|a: int| 0 <= a < i ==> (#[trigger] table@[a]).1.x >= 1 && table@[a].1.y >= 1,
        decreases table@.len() - i,
    {
        if table[i].1.x < 1 || table[i].1.y < 1 {
            return false;
        }
        let mut j: usize = 0;
        while j < i
            invariant
                j <= i < table@.len(),
                forall|a: int| 0 <= a < j ==> (#[trigger] table@[a]).0 != table@[i as int].0,
            decreases i - j,
        {
            if table[j].0 == table[i].0 {
                return false;
            }
            j += 1;
        }
        i += 1;
    }
    true
}

/// An unbounded grid of tiles. `G` is the noise source: called with the
/// coordinates of a cell, it returns the cell's level.
pub struct TileMap<G> {
    generator: G,
    map_changes: HashMap<u128, AreaChanges>,
    tile_cache: LruCache<u128, TileValue>,
    caching_enabled: bool,
    tile_type_sizes: Vec<(TileValue, GridCoord)>,
}

impl<G: Fn(i64, i64) -> i64> TileMap<G> {
    /// The noise source.
    pub closed spec fn generator(&self) -> G {
        self.generator
    }

    /// The edits, by cell. A cell without an edit shows its generated tile.
    pub closed spec fn edits(&self) -> Map<GridCoord, TileValue> {
        edits_of(self.map_changes@)
    }

    /// The chunks that hold the edits, by origin: the edits of each chunk by
    /// local key, and whether the chunk keeps them densely. A chunk is there
    /// from the first write to one of its cells on.
    pub closed spec fn chunks(&self) -> Map<GridCoord, (Map<u16, TileValue>, bool)> {
        chunks_of(self.map_changes@)
    }

    /// The registered footprints, by object kind.
    pub closed spec fn footprints(&self) -> Map<TileValue, GridCoord> {
        registered(self.tile_type_sizes@)
    }

    /// Number of entries that the read cache holds at most; zero while
    /// caching is switched off.
    pub closed spec fn cache_capacity(&self) -> nat {
        if self.caching_enabled {
            lru_capacity(self.tile_cache)
        } else {
            0
        }
    }

    /// The entries of the read cache, the most recently used first: the key
    /// of a cell and the tile cached for it.
    pub closed spec fn cache_entries(&self) -> Seq<(u128, TileValue)> {
        if self.caching_enabled {
            lru_entries(self.tile_cache)
        } else {
            Seq::empty()
        }
    }

    /// The tile of a cell.
    pub open spec fn tile_at(&self, pos: GridCoord) -> TileValue {
        resolve(self.edits(), self.generator(), pos)
    }

    /// The footprint of an object kind.
    pub open spec fn tile_size(&self, kind: TileValue) -> GridCoord {
        footprint_of(self.footprints(), kind)
    }

    /// Whether the noise source, the footprints and the capacity of the read
    /// cache are those of `before`.
    pub open spec fn keeps_settings(&self, before: &Self) -> bool {
        &&& self.generator() == before.generator()
        &&& self.footprints() == before.footprints()
        &&& self.cache_capacity() == before.cache_capacity()
    }

    /// Whether a cache entry agrees with the map.
    pub open spec fn entry_is_current(&self, entry: (u128, TileValue)) -> bool {
        is_current(self.edits(), self.generator(), entry)
    }

    /// The noise source is a function, every chunk is well formed, no kind is
    /// registered twice and no footprint is empty, and the cache holds only
    /// what the map itself would answer.
    pub closed spec fn wf(&self) -> bool {
        &&& is_function(self.generator)
        &&& forall|key: u128| #[trigger]
            self.map_changes@.contains_key(key) ==> self.map_changes@[key].wf()
        &&& valid_footprints(self.tile_type_sizes@)
        &&& lru_capacity(self.tile_cache) > 0
        &&& lru_entries(self.tile_cache).len() <= lru_capacity(self.tile_cache)
        &&& !self.caching_enabled ==> lru_entries(self.tile_cache).len() == 0
        &&& forall|i: int|
            0 <= i < lru_entries(self.tile_cache).len() ==> is_current(
                edits_of(self.map_changes@),
                self.generator,
                #[trigger] lru_entries(self.tile_cache)[i],
            )
    }

    /// What holds of every well-formed map: the edits are those that the
    /// chunks hold, footprints are at least one cell each way, the cache
    /// stays within its capacity and agrees with the map.
    pub proof fn lemma_wf_facts(&self)
        requires
            self.wf(),
        ensures
            is_function(self.generator()),
            self.edits() == edits_in(self.chunks()),
            forall|kind: TileValue| #[trigger]
                self.tile_size(kind).x >= 1 && self.tile_size(kind).y >= 1,
            self.cache_entries().len() <= self.cache_capacity(),
            forall|i: int|
                0 <= i < self.cache_entries().len() ==> self.entry_is_current(
                    #[trigger] self.cache_entries()[i],
                ),
    {
        lemma_edits_of_chunks(self.map_changes@);
    }

    /// A map without edits over the given noise source, with the footprints
    /// of the given table; the read cache holds up to `DEFAULT_CACHE_CAPACITY`
    /// tiles. There is no map for a table that names a kind twice or holds a
    /// footprint of less than one cell either way.
    pub fn with_footprints(generator: G, footprints: Vec<(TileValue, GridCoord)>) -> (made: Option<
        TileMap<G>,
    >)
        requires
            is_function(generator),
        ensures
            made is Some <==> valid_footprints(footprints@),
            made matches Some(map) ==> {
                &&& map.wf()
                &&& map.generator() == generator
                &&& map.edits() == Map::<GridCoord, TileValue>::empty()
                &&& map.chunks() == Map::<GridCoord, (Map<u16, TileValue>, bool)>::empty()
                &&& map.footprints() == registered(footprints@)
                &&& map.cache_capacity() == DEFAULT_CACHE_CAPACITY
                &&& map.cache_entries() == Seq::<(u128, TileValue)>::empty()
            },
    {
        if !footprints_are_valid(&footprints) {
            return None;
        }
        let map = TileMap {
            generator,
            map_changes: HashMap::new(),
            tile_cache: lru_new(DEFAULT_CACHE_CAPACITY),
            caching_enabled: true,
            tile_type_sizes: footprints,
        };
        proof {
            assert(map.edits() =~= Map::<GridCoord, TileValue>::empty());
            assert(map.chunks() =~= Map::<GridCoord, (Map<u16, TileValue>, bool)>::empty());
        }
        Some(map)
    }

    /// A map without edits over the given noise source. `HabModule` covers
    /// three cells by three; the read cache holds up to
    /// `DEFAULT_CACHE_CAPACITY` tiles.
    pub fn new(generator: G) -> (map: TileMap<G>)
        requires
            is_function(generator),
        ensures
            map.wf(),
            map.generator() == generator,
            map.edits() == Map::<GridCoord, TileValue>::empty(),
            map.chunks() == Map::<GridCoord, (Map<u16, TileValue>, bool)>::empty(),
            map.footprints() == Map::<TileValue, GridCoord>::empty().insert(
                TileValue::HabModule,
                GridCoord { x: 3, y: 3 },
            ),
            map.cache_capacity() == DEFAULT_CACHE_CAPACITY,
            map.cache_entries() == Seq::<(u128, TileValue)>::empty(),
    {
        let mut tile_type_sizes: Vec<(TileValue, GridCoord)> = Vec::new();
        tile_type_sizes.push((TileValue::HabModule, GridCoord { x: 3, y: 3 }));
        let map = TileMap {
            generator,
            map_changes: HashMap::new(),
            tile_cache: lru_new(DEFAULT_CACHE_CAPACITY),
            caching_enabled: true,
            tile_type_sizes,
        };
        proof {
            assert(map.tile_type_sizes@[0].0 == TileValue::HabModule);
            assert(map.footprints() =~= Map::<TileValue, GridCoord>::empty().insert(
                TileValue::HabModule,
                GridCoord { x: 3, y: 3 },
            ));
            assert(map.edits() =~= Map::<GridCoord, TileValue>::empty());
            assert(map.chunks() =~= Map::<GridCoord, (Map<u16, TileValue>, bool)>::empty());
        }
        map
    }

    /// The generated tile of a cell, from one call of the noise source.
    fn sample_base(&self, pos: &GridCoord) -> (tile: TileValue)
        requires
            is_function(self.generator),
        ensures
            tile == base_tile(level_of(self.generator, *pos)),
            generated(self.generator, *pos, tile),
    {
        let level: i64 = (self.generator)(pos.x, pos.y);
        base_tile_of(level)
    }

    /// The tile of the cell `pos`: its edit where it has one, else its
    /// generated tile. The cell becomes the most recently used entry of the
    /// read cache.
    pub fn sample(&mut self, pos: &GridCoord) -> (tile: TileValue)
        requires
            old(self).wf(),
        ensures
            tile == old(self).tile_at(*pos),
            old(self).edits().contains_key(*pos) || generated(old(self).generator(), *pos, tile),
            final(self).wf(),
            final(self).generator() == old(self).generator(),
            final(self).edits() == old(self).edits(),
            final(self).chunks() == old(self).chunks(),
            final(self).footprints() == old(self).footprints(),
            final(self).cache_capacity() == old(self).cache_capacity(),
            final(self).cache_entries() == touched(
                old(self).cache_entries(),
                old(self).cache_capacity(),
                cell_key(*pos),
                tile,
            ),
    {
        let key: u128 = cell_key_of(pos);
        let ghost entries = lru_entries(self.tile_cache);
        let ghost capacity = lru_capacity(self.tile_cache);
        proof {
            lemma_cell_key_round_trip(*pos);
            lemma_without_key(entries, key);
        }
        if self.caching_enabled {
            match lru_get(&mut self.tile_cache, key) {
                Some(cached) => {
                    proof {
                        let i = choose|i: int|
                            0 <= i < entries.len() && entries[i] == (key, cached);
                        assert(is_current(self.edits(), self.generator, entries[i]));
                        lemma_read_keeps_current(
                            self.edits(),
                            self.generator,
                            entries,
                            capacity,
                            *pos,
                            cached,
                        );
                    }
                    return cached;
                },
                None => {},
            }
        }
        let partition_coord: GridCoord = chunk_origin_of(pos);
        let partition_key: u128 = cell_key_of(&partition_coord);
        let tile: TileValue = match self.map_changes.get(&partition_key) {
            Some(partition_changes) => match partition_changes.sample(pos) {
                Some(tile_value) => tile_value,
                None => self.sample_base(pos),
            },
            None => self.sample_base(pos),
        };
        if self.caching_enabled {
            proof {
                lemma_touched(entries, capacity, key, tile);
                lemma_read_keeps_current(
                    self.edits(),
                    self.generator,
                    entries,
                    capacity,
                    *pos,
                    tile,
                );
            }
            lru_put(&mut self.tile_cache, key, tile);
        }
        tile
    }

    /// Writes `new_value` to the cell `pos` alone, and to the read cache.
    pub fn make_single_tile_change(&mut self, pos: &GridCoord, new_value: TileValue)
        requires
            old(self).wf(),
        ensures
            final(self).wf(),
            final(self).generator() == old(self).generator(),
            final(self).edits() == old(self).edits().insert(*pos, new_value),
            final(self).chunks() == chunk_written(old(self).chunks(), *pos, new_value),
            final(self).footprints() == old(self).footprints(),
            final(self).cache_capacity() == old(self).cache_capacity(),
            final(self).cache_entries() == touched(
                old(self).cache_entries(),
                old(self).cache_capacity(),
                cell_key(*pos),
                new_value,
            ),
    {
        let partition_coord: GridCoord = chunk_origin_of(pos);
        let partition_key: u128 = cell_key_of(&partition_coord);
        let key: u128 = cell_key_of(pos);
        let ghost entries = lru_entries(self.tile_cache);
        let ghost capacity = lru_capacity(self.tile_cache);
        let partition_changes = self.map_changes.entry(partition_key).or_insert(AreaChanges::new());
        partition_changes.add_change(pos, &new_value);
        proof {
            lemma_chunk_write(
                old(self).map_changes@,
                self.map_changes@[partition_key],
                *pos,
                new_value,
            );
            lemma_chunk_stored(
                old(self).map_changes@,
                self.map_changes@[partition_key],
                *pos,
                new_value,
            );
            assert(self.map_changes@ == old(self).map_changes@.insert(
                partition_key,
                self.map_changes@[partition_key],
            ));
            lemma_touched(entries, capacity, key, new_value);
            lemma_write_keeps_current(
                old(self).edits(),
                self.generator,
                entries,
                capacity,
                *pos,
                new_value,
            );
        }
        if self.caching_enabled {
            lru_put(&mut self.tile_cache, key, new_value);
        }
    }

    /// Writes `new_value` to every cell of the rectangle that starts at
    /// `top_left` and spans `size` cells. A size that is not positive both ways
    /// spans no cell.
    pub fn set_area(&mut self, top_left: &GridCoord, size: &GridCoord, new_value: TileValue)
        requires
            old(self).wf(),
            i64::MIN <= top_left.x + size.x <= i64::MAX,
            i64::MIN <= top_left.y + size.y <= i64::MAX,
        ensures
            final(self).wf(),
            final(self).keeps_settings(old(self)),
            final(self).edits() == filled(old(self).edits(), *top_left, *size, new_value),
            final(self).chunks() == chunks_written(
                old(self).chunks(),
                stores_of(area_cells(*top_left, *size), new_value),
            ),
            final(self).cache_entries() == touched_all(
                old(self).cache_entries(),
                old(self).cache_capacity(),
                writes_of(area_cells(*top_left, *size), new_value),
            ),
    {
        let x_min: i64 = top_left.x;
        let y_min: i64 = top_left.y;
        let x_max: i64 = x_min + size.x;
        let y_max: i64 = y_min + size.y;
        let mut y: i64 = y_min;
        proof {
            lemma_walk_start(*top_left, *size);
            assert(self.edits() =~= filled_until(
                old(self).edits(),
                *top_left,
                *size,
                new_value,
                x_min as int,
                y as int,
            ));
            assert(stores_of(Seq::<GridCoord>::empty(), new_value) =~= Seq::<
                (GridCoord, TileValue),
            >::empty());
        }
        while y < y_max
            invariant
                bounds_of(*top_left, *size, x_min, x_max, y_min, y_max),
                on_the_way(y_min as int, y_max as int, y as int),
                self.wf(),
                self.keeps_settings(old(self)),
                self.edits() == filled_until(
                    old(self).edits(),
                    *top_left,
                    *size,
                    new_value,
                    x_min as int,
                    y as int,
                ),
                self.chunks() == chunks_written(
                    old(self).chunks(),
                    stores_of(cells_before(*top_left, *size, x_min as int, y as int), new_value),
                ),
                self.cache_entries() == touched_all(
                    old(self).cache_entries(),
                    old(self).cache_capacity(),
                    writes_of(cells_before(*top_left, *size, x_min as int, y as int), new_value),
                ),
            decreases y_max - y,
        {
            let mut x: i64 = x_min;
            while x < x_max
                invariant
                    bounds_of(*top_left, *size, x_min, x_max, y_min, y_max),
                    y_min <= y < y_max,
                    on_the_way(x_min as int, x_max as int, x as int),
                    self.wf(),
                    self.keeps_settings(old(self)),
                    self.edits() == filled_until(
                        old(self).edits(),
                        *top_left,
                        *size,
                        new_value,
                        x as int,
                        y as int,
                    ),
                    self.chunks() == chunks_written(
                        old(self).chunks(),
                        stores_of(cells_before(*top_left, *size, x as int, y as int), new_value),
                    ),
                    self.cache_entries() == touched_all(
                        old(self).cache_entries(),
                        old(self).cache_capacity(),
                        writes_of(cells_before(*top_left, *size, x as int, y as int), new_value),
                    ),
                decreases x_max - x,
            {
                let here = GridCoord { x, y };
                self.make_single_tile_change(&here, new_value);
                proof {
                    let reached = cells_before(*top_left, *size, x as int, y as int);
                    lemma_walk_step(*top_left, *size, x as int, y as int);
                    lemma_writes_of_push(reached, here, new_value);
                    lemma_stores_of_push(reached, here, new_value);
                    lemma_chunks_written_push(
                        old(self).chunks(),
                        stores_of(reached, new_value),
                        here,
                        new_value,
                    );
                    lemma_touched_all_push(
                        old(self).cache_entries(),
                        old(self).cache_capacity(),
                        writes_of(reached, new_value),
                        cell_key(here),
                        new_value,
                    );
                    assert(self.edits() =~= filled_until(
                        old(self).edits(),
                        *top_left,
                        *size,
                        new_value,
                        x + 1,
                        y as int,
                    ));
                }
                x += 1;
            }
            proof {
                lemma_walk_next_row(*top_left, *size, x as int, y as int);
                assert(self.edits() =~= filled_until(
                    old(self).edits(),
                    *top_left,
                    *size,
                    new_value,
                    x_min as int,
                    y + 1,
                ));
            }
            y += 1;
        }
        proof {
            lemma_walk_end(*top_left, *size, y as int);
            assert(self.edits() =~= filled(old(self).edits(), *top_left, *size, new_value));
        }
    }

    /// Places `new_value` at the cell `pos`. Where the tile that stood there
    /// covers more than one cell, in width or in height, its whole footprint
    /// is emptied first. Every cell of the new footprint then refers to `pos`,
    /// and `pos` holds `new_value`. Nothing is checked for overlap: a cell that two
    /// objects cover belongs to the one placed last.
    pub fn make_change(&mut self, pos: &GridCoord, new_value: &TileValue)
        requires
            old(self).wf(),
            footprint_fits(*pos, old(self).tile_size(old(self).tile_at(*pos))),
            footprint_fits(*pos, old(self).tile_size(*new_value)),
        ensures
            final(self).wf(),
            final(self).keeps_settings(old(self)),
            final(self).edits() == placed(
                old(self).edits(),
                *pos,
                old(self).tile_size(old(self).tile_at(*pos)),
                old(self).tile_size(*new_value),
                *new_value,
            ),
            final(self).chunks() == chunks_written(
                old(self).chunks(),
                placement_writes(
                    *pos,
                    old(self).tile_size(old(self).tile_at(*pos)),
                    old(self).tile_size(*new_value),
                    *new_value,
                ),
            ),
            final(self).tile_at(*pos) == *new_value,
            final(self).cache_entries() == touched_all(
                old(self).cache_entries(),
                old(self).cache_capacity(),
                placement_uses(
                    *pos,
                    old(self).tile_at(*pos),
                    old(self).tile_size(old(self).tile_at(*pos)),
                    old(self).tile_size(*new_value),
                    *new_value,
                ),
            ),
    {
        proof {
            self.lemma_wf_facts();
        }
        let ghost entries = self.cache_entries();
        let ghost capacity = self.cache_capacity();
        let old_value: TileValue = self.sample(pos);
        let old_tile_size: GridCoord = self.get_tile_size(&old_value);
        let ghost sampled = seq![(cell_key(*pos), old_value)];
        let ghost cleared = if old_tile_size.x > 1 || old_tile_size.y > 1 {
            writes_of(
                area_cells(footprint_corner(*pos, old_tile_size), old_tile_size),
                TileValue::Empty,
            )
        } else {
            Seq::empty()
        };
        let ghost chunks = self.chunks();
        let ghost emptied = if old_tile_size.x > 1 || old_tile_size.y > 1 {
            stores_of(
                area_cells(footprint_corner(*pos, old_tile_size), old_tile_size),
                TileValue::Empty,
            )
        } else {
            Seq::empty()
        };
        proof {
            assert(sampled =~= Seq::<(u128, TileValue)>::empty().push((cell_key(*pos), old_value)));
            lemma_touched_all_push(entries, capacity, Seq::empty(), cell_key(*pos), old_value);
        }
        if old_tile_size.x > 1 || old_tile_size.y > 1 {
            let x_min: i64 = pos.x - (old_tile_size.x / 2);
            let y_min: i64 = pos.y - (old_tile_size.y / 2);
            self.set_area(&GridCoord { x: x_min, y: y_min }, &old_tile_size, TileValue::Empty);
        }
        proof {
            lemma_touched_all_concat(entries, capacity, sampled, cleared);
        }
        let tile_size: GridCoord = self.get_tile_size(new_value);
        let x_min: i64 = pos.x - (tile_size.x / 2);
        let y_min: i64 = pos.y - (tile_size.y / 2);
        let ghost covered = writes_of(
            area_cells(footprint_corner(*pos, tile_size), tile_size),
            TileValue::Subtile(*pos),
        );
        let ghost referred = stores_of(
            area_cells(footprint_corner(*pos, tile_size), tile_size),
            TileValue::Subtile(*pos),
        );
        self.set_area(&GridCoord { x: x_min, y: y_min }, &tile_size, TileValue::Subtile(*pos));
        self.make_single_tile_change(pos, *new_value);
        proof {
            lemma_chunks_written_concat(chunks, emptied, referred);
            lemma_chunks_written_push(chunks, emptied + referred, *pos, *new_value);
            assert((emptied + referred).push((*pos, *new_value)) =~= emptied + referred + seq![
                (*pos, *new_value),
            ]);
            lemma_touched_all_concat(entries, capacity, sampled + cleared, covered);
            lemma_touched_all_push(
                entries,
                capacity,
                sampled + cleared + covered,
                cell_key(*pos),
                *new_value,
            );
            assert((sampled + cleared + covered).push((cell_key(*pos), *new_value)) =~= sampled
                + cleared + covered + seq![(cell_key(*pos), *new_value)]);
        }
    }

    /// Places `new_value` at the cell `pos` as `make_change` does, unless the
    /// footprint of the tile that stands there or that of `new_value` would
    /// reach past the coordinates that a cell can have. Returns whether the
    /// object was placed. Where it was not, the edits stay as they were; the
    /// tile of `pos` was sampled either way.
    pub fn try_make_change(&mut self, pos: &GridCoord, new_value: &TileValue) -> (done: bool)
        requires
            old(self).wf(),
        ensures
            done == (footprint_fits(*pos, old(self).tile_size(old(self).tile_at(*pos)))
                && footprint_fits(*pos, old(self).tile_size(*new_value))),
            final(self).wf(),
            final(self).keeps_settings(old(self)),
            final(self).edits() == if done {
                placed(
                    old(self).edits(),
                    *pos,
                    old(self).tile_size(old(self).tile_at(*pos)),
                    old(self).tile_size(*new_value),
                    *new_value,
                )
            } else {
                old(self).edits()
            },
            final(self).chunks() == if done {
                chunks_written(
                    old(self).chunks(),
                    placement_writes(
                        *pos,
                        old(self).tile_size(old(self).tile_at(*pos)),
                        old(self).tile_size(*new_value),
                        *new_value,
                    ),
                )
            } else {
                old(self).chunks()
            },
            done ==> final(self).tile_at(*pos) == *new_value,
            final(self).cache_entries() == touched_all(
                touched(
                    old(self).cache_entries(),
                    old(self).cache_capacity(),
                    cell_key(*pos),
                    old(self).tile_at(*pos),
                ),
                old(self).cache_capacity(),
                if done {
                    placement_uses(
                        *pos,
                        old(self).tile_at(*pos),
                        old(self).tile_size(old(self).tile_at(*pos)),
                        old(self).tile_size(*new_value),
                        *new_value,
                    )
                } else {
                    Seq::empty()
                },
            ),
    {
        proof {
            self.lemma_wf_facts();
        }
        let old_value: TileValue = self.sample(pos);
        let old_tile_size: GridCoord = self.get_tile_size(&old_value);
        let tile_size: GridCoord = self.get_tile_size(new_value);
        if footprint_fits_at(pos, &old_tile_size) && footprint_fits_at(pos, &tile_size) {
            self.make_change(pos, new_value);
            true
        } else {
            false
        }
    }

    /// Whether every cell of the rectangle that starts at `top_left` and spans
    /// `size` cells is `Empty`. The scan goes row by row and stops at the first
    /// cell that is not.
    pub fn area_clear(&mut self, top_left: &GridCoord, size: &GridCoord) -> (clear: bool)
        requires
            old(self).wf(),
            i64::MIN <= top_left.x + size.x <= i64::MAX,
            i64::MIN <= top_left.y + size.y <= i64::MAX,
        ensures
            clear <==> forall|pos: GridCoord|
                in_rect(pos, *top_left, *size) ==> #[trigger] old(self).tile_at(pos)
                    == TileValue::Empty,
            final(self).wf(),
            final(self).keeps_settings(old(self)),
            final(self).edits() == old(self).edits(),
            final(self).chunks() == old(self).chunks(),
            final(self).cache_entries() == touched_all(
                old(self).cache_entries(),
                old(self).cache_capacity(),
                reads_of(
                    old(self).edits(),
                    old(self).generator(),
                    area_cells(*top_left, *size).take(
                        scan_length(
                            old(self).edits(),
                            old(self).generator(),
                            area_cells(*top_left, *size),
                        ) as int,
                    ),
                ),
            ),
    {
        let x_min: i64 = top_left.x;
        let x_max: i64 = top_left.x + size.x;
        let y_min: i64 = top_left.y;
        let y_max: i64 = top_left.y + size.y;
        let ghost edits = old(self).edits();
        let ghost generator = old(self).generator();
        let mut clear: bool = true;
        let mut y: i64 = y_min;
        proof {
            lemma_walk_start(*top_left, *size);
            assert(reads_of(edits, generator, Seq::<GridCoord>::empty()) =~= Seq::<
                (u128, TileValue),
            >::empty());
        }
        while y < y_max
            invariant
                bounds_of(*top_left, *size, x_min, x_max, y_min, y_max),
                on_the_way(y_min as int, y_max as int, y as int),
                clear,
                edits == old(self).edits(),
                generator == old(self).generator(),
                self.wf(),
                self.keeps_settings(old(self)),
                self.edits() == old(self).edits(),
                self.chunks() == old(self).chunks(),
                forall|i: int|
                    0 <= i < cells_before(*top_left, *size, x_min as int, y as int).len()
                        ==> resolve(
                        edits,
                        generator,
                        #[trigger] cells_before(*top_left, *size, x_min as int, y as int)[i],
                    ) == TileValue::Empty,
                self.cache_entries() == touched_all(
                    old(self).cache_entries(),
                    old(self).cache_capacity(),
                    reads_of(
                        edits,
                        generator,
                        cells_before(*top_left, *size, x_min as int, y as int),
                    ),
                ),
            decreases y_max - y,
        {
            let mut x: i64 = x_min;
            while x < x_max
                invariant
                    bounds_of(*top_left, *size, x_min, x_max, y_min, y_max),
                    y_min <= y < y_max,
                    on_the_way(x_min as int, x_max as int, x as int),
                    clear,
                    edits == old(self).edits(),
                    generator == old(self).generator(),
                    self.wf(),
                    self.keeps_settings(old(self)),
                    self.edits() == old(self).edits(),
                    self.chunks() == old(self).chunks(),
                self.chunks() == old(self).chunks(),
                    forall|i: int|
                        0 <= i < cells_before(*top_left, *size, x as int, y as int).len()
                            ==> resolve(
                            edits,
                            generator,
                            #[trigger] cells_before(*top_left, *size, x as int, y as int)[i],
                        ) == TileValue::Empty,
                    self.cache_entries() == touched_all(
                        old(self).cache_entries(),
                        old(self).cache_capacity(),
                        reads_of(
                            edits,
                            generator,
                            cells_before(*top_left, *size, x as int, y as int),
                        ),
                    ),
                decreases x_max - x,
            {
                let here = GridCoord { x, y };
                let ghost reached = cells_before(*top_left, *size, x as int, y as int);
                clear = clear && (self.sample(&here) == TileValue::Empty);
                proof {
                    lemma_walk_step(*top_left, *size, x as int, y as int);
                    lemma_reads_of_push(edits, generator, reached, here);
                    lemma_touched_all_push(
                        old(self).cache_entries(),
                        old(self).cache_capacity(),
                        reads_of(edits, generator, reached),
                        cell_key(here),
                        resolve(edits, generator, here),
                    );
                }
                if !clear {
                    proof {
                        assert(in_rect(here, *top_left, *size));
                        assert(old(self).tile_at(here) != TileValue::Empty);
                        lemma_area_cells_index(*top_left, *size, x as int, y as int);
                        lemma_scan_stops(
                            edits,
                            generator,
                            area_cells(*top_left, *size),
                            reached,
                            here,
                        );
                    }
                    return clear;
                }
                x += 1;
            }
            proof {
                lemma_walk_next_row(*top_left, *size, x as int, y as int);
            }
            y += 1;
        }
        proof {
            lemma_walk_end(*top_left, *size, y as int);
            let cells = area_cells(*top_left, *size);
            lemma_scan_completes(edits, generator, cells);
            lemma_area_cells_cover(*top_left, *size);
            assert forall|pos: GridCoord| in_rect(pos, *top_left, *size) implies old(
                self,
            ).tile_at(pos) == TileValue::Empty by {
                assert(cells.contains(pos));
                let i = choose|i: int| 0 <= i < cells.len() && cells[i] == pos;
                assert(resolve(edits, generator, cells[i]) == TileValue::Empty);
            }
        }
        clear
    }

    /// Walks the rectangle that starts at `top_left` and spans `size` cells,
    /// row by row, and returns what it meets: one entry for each cell, with the
    /// cell, its tile and the footprint of that tile.
    pub fn visits_in(&mut self, top_left: &GridCoord, size: &GridCoord) -> (visits: Vec<
        (GridCoord, TileValue, GridCoord),
    >)
        requires
            old(self).wf(),
            i64::MIN <= top_left.x + size.x <= i64::MAX,
            i64::MIN <= top_left.y + size.y <= i64::MAX,
        ensures
            final(self).wf(),
            final(self).keeps_settings(old(self)),
            final(self).edits() == old(self).edits(),
            final(self).chunks() == old(self).chunks(),
            visits@ == visits_of(
                old(self).edits(),
                old(self).generator(),
                old(self).footprints(),
                area_cells(*top_left, *size),
            ),
            final(self).cache_entries() == touched_all(
                old(self).cache_entries(),
                old(self).cache_capacity(),
                reads_of(old(self).edits(), old(self).generator(), area_cells(*top_left, *size)),
            ),
    {
        let x_min: i64 = top_left.x;
        let x_max: i64 = top_left.x + size.x;
        let y_min: i64 = top_left.y;
        let y_max: i64 = top_left.y + size.y;
        let ghost edits = old(self).edits();
        let ghost generator = old(self).generator();
        let ghost footprints = old(self).footprints();
        let mut visits: Vec<(GridCoord, TileValue, GridCoord)> = Vec::new();
        let mut y: i64 = y_min;
        proof {
            lemma_walk_start(*top_left, *size);
            assert(reads_of(edits, generator, Seq::<GridCoord>::empty()) =~= Seq::<
                (u128, TileValue),
            >::empty());
            assert(visits@ =~= visits_of(edits, generator, footprints, Seq::empty()));
        }
        while y < y_max
            invariant
                bounds_of(*top_left, *size, x_min, x_max, y_min, y_max),
                on_the_way(y_min as int, y_max as int, y as int),
                edits == old(self).edits(),
                generator == old(self).generator(),
                footprints == old(self).footprints(),
                self.wf(),
                self.keeps_settings(old(self)),
                self.edits() == old(self).edits(),
                self.chunks() == old(self).chunks(),
                visits@ == visits_of(
                    edits,
                    generator,
                    footprints,
                    cells_before(*top_left, *size, x_min as int, y as int),
                ),
                self.cache_entries() == touched_all(
                    old(self).cache_entries(),
                    old(self).cache_capacity(),
                    reads_of(
                        edits,
                        generator,
                        cells_before(*top_left, *size, x_min as int, y as int),
                    ),
                ),
            decreases y_max - y,
        {
            let mut x: i64 = x_min;
            while x < x_max
                invariant
                    bounds_of(*top_left, *size, x_min, x_max, y_min, y_max),
                    y_min <= y < y_max,
                    on_the_way(x_min as int, x_max as int, x as int),
                    edits == old(self).edits(),
                    generator == old(self).generator(),
                    footprints == old(self).footprints(),
                    self.wf(),
                    self.keeps_settings(old(self)),
                    self.edits() == old(self).edits(),
                    self.chunks() == old(self).chunks(),
                self.chunks() == old(self).chunks(),
                    visits@ == visits_of(
                        edits,
                        generator,
                        footprints,
                        cells_before(*top_left, *size, x as int, y as int),
                    ),
                    self.cache_entries() == touched_all(
                        old(self).cache_entries(),
                        old(self).cache_capacity(),
                        reads_of(
                            edits,
                            generator,
                            cells_before(*top_left, *size, x as int, y as int),
                        ),
                    ),
                decreases x_max - x,
            {
                let coord = GridCoord { x, y };
                let ghost reached = cells_before(*top_left, *size, x as int, y as int);
                let tile_value: TileValue = self.sample(&coord);
                let tile_size: GridCoord = self.get_tile_size(&tile_value);
                proof {
                    lemma_walk_step(*top_left, *size, x as int, y as int);
                    lemma_reads_of_push(edits, generator, reached, coord);
                    lemma_visits_of_push(edits, generator, footprints, reached, coord);
                    lemma_touched_all_push(
                        old(self).cache_entries(),
                        old(self).cache_capacity(),
                        reads_of(edits, generator, reached),
                        cell_key(coord),
                        tile_value,
                    );
                }
                visits.push((coord, tile_value, tile_size));
                x += 1;
            }
            proof {
                lemma_walk_next_row(*top_left, *size, x as int, y as int);
            }
            y += 1;
        }
        proof {
            lemma_walk_end(*top_left, *size, y as int);
        }
        visits
    }

    /// Calls `func` once for every cell of the rectangle whose first cell is
    /// `min_cell` and whose last cell is `max_cell`, both included: the corners
    /// of a region that was rounded outwards to whole cells.
    pub fn for_each_tile_rect<F>(
        &mut self,
        min_cell: &GridCoord,
        max_cell: &GridCoord,
        func: F,
    ) where F: FnMut(&GridCoord, &TileValue, &GridCoord)
        requires
            old(self).wf(),
            max_cell.x < i64::MAX,
            max_cell.y < i64::MAX,
            i64::MIN <= max_cell.x - min_cell.x < i64::MAX,
            i64::MIN <= max_cell.y - min_cell.y < i64::MAX,
            forall|pos: GridCoord|
                in_rect(pos, *min_cell, size_between(*min_cell, *max_cell)) ==> call_requires(
                    func,
                    (&pos, &old(self).tile_at(pos), &old(self).tile_size(old(self).tile_at(pos))),
                ),
        ensures
            final(self).wf(),
            final(self).keeps_settings(old(self)),
            final(self).edits() == old(self).edits(),
            final(self).chunks() == old(self).chunks(),
            forall|pos: GridCoord|
                in_rect(pos, *min_cell, size_between(*min_cell, *max_cell)) ==> call_ensures(
                    func,
                    (&pos, &old(self).tile_at(pos), &old(self).tile_size(old(self).tile_at(pos))),
                    (),
                ),
            final(self).cache_entries() == touched_all(
                old(self).cache_entries(),
                old(self).cache_capacity(),
                reads_of(
                    old(self).edits(),
                    old(self).generator(),
                    area_cells(*min_cell, size_between(*min_cell, *max_cell)),
                ),
            ),
    {
        let x_size: i64 = max_cell.x - min_cell.x + 1;
        let y_size: i64 = max_cell.y - min_cell.y + 1;
        let size = GridCoord { x: x_size, y: y_size };
        assert(size == size_between(*min_cell, *max_cell));
        self.for_each_tile(min_cell, &size, func)
    }

    /// Calls `func` once for every entry of `visits_in(top_left, size)`, in
    /// its order: for every cell of the rectangle, with the cell, its tile and
    /// the footprint of that tile.
    pub fn for_each_tile<F>(&mut self, top_left: &GridCoord, size: &GridCoord, mut func: F) where
        F: FnMut(&GridCoord, &TileValue, &GridCoord),

        requires
            old(self).wf(),
            i64::MIN <= top_left.x + size.x <= i64::MAX,
            i64::MIN <= top_left.y + size.y <= i64::MAX,
            forall|pos: GridCoord|
                in_rect(pos, *top_left, *size) ==> call_requires(
                    func,
                    (&pos, &old(self).tile_at(pos), &old(self).tile_size(old(self).tile_at(pos))),
                ),
        ensures
            final(self).wf(),
            final(self).keeps_settings(old(self)),
            final(self).edits() == old(self).edits(),
            final(self).chunks() == old(self).chunks(),
            forall|pos: GridCoord|
                in_rect(pos, *top_left, *size) ==> call_ensures(
                    func,
                    (&pos, &old(self).tile_at(pos), &old(self).tile_size(old(self).tile_at(pos))),
                    (),
                ),
            final(self).cache_entries() == touched_all(
                old(self).cache_entries(),
                old(self).cache_capacity(),
                reads_of(old(self).edits(), old(self).generator(), area_cells(*top_left, *size)),
            ),
    {
        let ghost visitor = func;
        let ghost cells = area_cells(*top_left, *size);
        let visits = self.visits_in(top_left, size);
        proof {
            lemma_area_cells_cover(*top_left, *size);
        }
        let mut i: usize = 0;
        while i < visits.len()
            invariant
                func == visitor,
                i <= visits@.len(),
                cells == area_cells(*top_left, *size),
                visits@ == visits_of(
                    old(self).edits(),
                    old(self).generator(),
                    old(self).footprints(),
                    cells,
                ),
                forall|pos: GridCoord|
                    in_rect(pos, *top_left, *size) <==> #[trigger] cells.contains(pos),
                forall|pos: GridCoord|
                    in_rect(pos, *top_left, *size) ==> call_requires(
                        visitor,
                        (
                            &pos,
                            &old(self).tile_at(pos),
                            &old(self).tile_size(old(self).tile_at(pos)),
                        ),
                    ),
                forall|j: int|
                    0 <= j < i ==> call_ensures(
                        visitor,
                        (
                            &(#[trigger] cells[j]),
                            &old(self).tile_at(cells[j]),
                            &old(self).tile_size(old(self).tile_at(cells[j])),
                        ),
                        (),
                    ),
            decreases visits@.len() - i,
        {
            let visit = &visits[i];
            proof {
                assert(cells.contains(cells[i as int]));
                assert(visit.0 == cells[i as int]);
            }
            func(&visit.0, &visit.1, &visit.2);
            i += 1;
        }
        proof {
            assert forall|pos: GridCoord| in_rect(pos, *top_left, *size) implies call_ensures(
                visitor,
                (&pos, &old(self).tile_at(pos), &old(self).tile_size(old(self).tile_at(pos))),
                (),
            ) by {
                assert(cells.contains(pos));
                let j = choose|j: int| 0 <= j < cells.len() && cells[j] == pos;
                assert(cells[j] == pos);
            }
        }
    }

    /// The cell that a pick at the cell `(cell_x, cell_y)` selects: the anchor
    /// of the object that covers the cell, and the cell itself where none does.
    pub fn pos_to_grid(&mut self, cell_x: i64, cell_y: i64) -> (picked: GridCoord)
        requires
            old(self).wf(),
        ensures
            picked == match old(self).tile_at(GridCoord { x: cell_x, y: cell_y }) {
                TileValue::Subtile(anchor) => anchor,
                _ => GridCoord { x: cell_x, y: cell_y },
            },
            final(self).wf(),
            final(self).keeps_settings(old(self)),
            final(self).edits() == old(self).edits(),
            final(self).chunks() == old(self).chunks(),
            final(self).cache_entries() == touched(
                old(self).cache_entries(),
                old(self).cache_capacity(),
                cell_key(GridCoord { x: cell_x, y: cell_y }),
                old(self).tile_at(GridCoord { x: cell_x, y: cell_y }),
            ),
    {
        let pos = GridCoord { x: cell_x, y: cell_y };
        match self.sample(&pos) {
            TileValue::Subtile(ref_position) => ref_position,
            _ => pos,
        }
    }

    /// Sets the number of tiles that the read cache holds at most. A smaller
    /// capacity drops the entries that went unused the longest; zero switches
    /// caching off. What `sample` answers does not depend on the capacity.
    pub fn resize_cache(&mut self, new_capacity: usize)
        requires
            old(self).wf(),
        ensures
            final(self).wf(),
            final(self).generator() == old(self).generator(),
            final(self).footprints() == old(self).footprints(),
            final(self).edits() == old(self).edits(),
            final(self).chunks() == old(self).chunks(),
            final(self).cache_capacity() == new_capacity,
            final(self).cache_entries() == shrunk(old(self).cache_entries(), new_capacity as nat),
    {
        if new_capacity == 0 {
            lru_clear(&mut self.tile_cache);
            self.caching_enabled = false;
        } else {
            lru_resize(&mut self.tile_cache, new_capacity);
            self.caching_enabled = true;
        }
    }

    /// Replaces the noise source. The edits stay; the read cache is emptied,
    /// since what it holds was generated by the old source.
    pub fn set_generator(&mut self, generator: G)
        requires
            old(self).wf(),
            is_function(generator),
        ensures
            final(self).wf(),
            final(self).generator() == generator,
            final(self).footprints() == old(self).footprints(),
            final(self).edits() == old(self).edits(),
            final(self).chunks() == old(self).chunks(),
            final(self).cache_capacity() == old(self).cache_capacity(),
            final(self).cache_entries() == Seq::<(u128, TileValue)>::empty(),
    {
        self.generator = generator;
        lru_clear(&mut self.tile_cache);
    }

    /// The footprint of an object kind: what is registered for it, and one
    /// cell by one cell for every other kind.
    pub fn get_tile_size(&self, tile_type: &TileValue) -> (size: GridCoord)
        requires
            self.wf(),
        ensures
            size == self.tile_size(*tile_type),
    {
        let mut i: usize = 0;
        while i < self.tile_type_sizes.len()
            invariant
                self.wf(),
                i <= self.tile_type_sizes@.len(),
                forall|j: int| 0 <= j < i ==> self.tile_type_sizes@[j].0 != *tile_type,
            decreases self.tile_type_sizes@.len() - i,
        {
            if self.tile_type_sizes[i].0 == *tile_type {
                proof {
                    let sizes = self.tile_type_sizes@;
                    let found = i as int;
                    assert(0 <= found < sizes.len() && sizes[found].0 == *tile_type);
                    let chosen = choose|j: int| 0 <= j < sizes.len() && sizes[j].0 == *tile_type;
                    assert(chosen == found);
                }
                return self.tile_type_sizes[i].1;
            }
            i += 1;
        }
        GridCoord { x: 1, y: 1 }
    }
}

} // verus!
