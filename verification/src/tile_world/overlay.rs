//! The edits of one chunk.
//!
//! A chunk starts out keeping its edits in a hash map. Once the map has grown
//! past `DENSE_SWITCH_POINT` entries, the next write moves every entry into an
//! array with one slot per cell. Which of the two is in use never shows in what
//! `sample` returns.

use std::collections::HashMap;
use vstd::prelude::*;
use vstd::std_specs::hash::{axiom_spec_hash_map_iter, spec_hash_map_iter};
use vstd::std_specs::iter::IteratorSpec;
use crate::tile_world::grid::{
    dense_index, is_local_key, lemma_local_key_parts, local_key, local_offset_of, sparse_key_of,
    GridCoord, TileValue, DENSE_SWITCH_POINT, PARTITION_AREA, PARTITION_SIZE,
};

verus! {

/// The edits made to the cells of one chunk.
pub struct AreaChanges {
    changes_map: HashMap<u16, TileValue>,
    changes_vec: Vec<Option<TileValue>>,
    using_dense_storage: bool,
}

impl View for AreaChanges {
    type V = Map<u16, TileValue>;

    /// The edits by local key, whichever storage holds them.
    closed spec fn view(&self) -> Map<u16, TileValue> {
        if self.using_dense_storage {
            Map::new(
                |key: u16| is_local_key(key) && self.changes_vec@[dense_index(key)] is Some,
                |key: u16| self.changes_vec@[dense_index(key)]->0,
            )
        } else {
            self.changes_map@
        }
    }
}

impl AreaChanges {
    /// Exactly one of the two storages is populated, and every stored key
    /// belongs to a cell of the chunk.
    pub closed spec fn wf(&self) -> bool {
        if self.using_dense_storage {
            &&& self.changes_vec@.len() == PARTITION_AREA
            &&& self.changes_map@ == Map::<u16, TileValue>::empty()
        } else {
            &&& self.changes_vec@.len() == 0
            &&& forall|key: u16| self.changes_map@.contains_key(key) ==> is_local_key(key)
        }
    }

    /// Whether the edits are kept in the array.
    pub closed spec fn is_dense(&self) -> bool {
        self.using_dense_storage
    }

    /// The edit stored for `pos`, if there is one. Only the offset of `pos`
    /// inside its chunk counts.
    pub open spec fn edit_at(&self, pos: GridCoord) -> Option<TileValue> {
        if self@.contains_key(local_key(pos)) {
            Some(self@[local_key(pos)])
        } else {
            None
        }
    }

    /// Every key of the view belongs to a cell of the chunk: both offsets lie
    /// within the side of a chunk.
    pub proof fn lemma_keys_are_local(&self)
        requires
            self.wf(),
        ensures
            forall|key: u16| #[trigger] self@.contains_key(key) ==> is_local_key(key),
    {
    }

    /// A chunk without edits, in sparse storage.
    pub fn new() -> (changes: AreaChanges)
        ensures
            changes.wf(),
            !changes.is_dense(),
            changes@ == Map::<u16, TileValue>::empty(),
    {
        AreaChanges {
            changes_map: HashMap::new(),
            changes_vec: Vec::new(),
            using_dense_storage: false,
        }
    }

    /// The edit stored for the cell `pos`, or `None` where the generated value
    /// still stands.
    pub fn sample(&self, pos: &GridCoord) -> (value: Option<TileValue>)
        requires
            self.wf(),
        ensures
            value == self.edit_at(*pos),
    {
        let internal_pos_x: u8 = local_offset_of(pos.x);
        let internal_pos_y: u8 = local_offset_of(pos.y);
        proof {
            lemma_local_key_parts(*pos);
        }
        if self.using_dense_storage {
            let index: usize = internal_pos_x as usize + (PARTITION_SIZE as usize) * (
            internal_pos_y as usize);
            self.changes_vec[index]
        } else {
            let internal_key: u16 = sparse_key_of(internal_pos_x, internal_pos_y);
            match self.changes_map.get(&internal_key) {
                Some(value) => Some(*value),
                None => None,
            }
        }
    }

    /// Stores `tile_value` as the edit of the cell `pos`, over whatever was
    /// stored for it. A sparse chunk that already holds more than
    /// `DENSE_SWITCH_POINT` entries turns dense first.
    pub fn add_change(&mut self, pos: &GridCoord, tile_value: &TileValue)
        requires
            old(self).wf(),
        ensures
            final(self).wf(),
            final(self)@ == old(self)@.insert(local_key(*pos), *tile_value),
            final(self).is_dense() == (old(self).is_dense() || old(self)@.len()
                > DENSE_SWITCH_POINT),
    {
        let internal_pos_x: u8 = local_offset_of(pos.x);
        let internal_pos_y: u8 = local_offset_of(pos.y);
        proof {
            lemma_local_key_parts(*pos);
        }
        if !self.using_dense_storage && self.changes_map.len() > DENSE_SWITCH_POINT as usize {
            self.switch_to_dense();
        }
        if self.using_dense_storage {
            let index: usize = internal_pos_x as usize + (PARTITION_SIZE as usize) * (
            internal_pos_y as usize);
            let ghost before = *self;
            self.changes_vec[index] = Some(*tile_value);
            proof {
                let key = local_key(*pos);
                assert forall|other: u16| is_local_key(other) && other != key implies dense_index(
                    other,
                ) != dense_index(key) by {}
                assert(self@ =~= before@.insert(key, *tile_value));
            }
        } else {
            let internal_key: u16 = sparse_key_of(internal_pos_x, internal_pos_y);
            self.changes_map.insert(internal_key, *tile_value);
        }
    }

    /// Moves every edit from the hash map into the array. The edits stay what
    /// they were. Does nothing to a chunk that is dense already.
    pub fn switch_to_dense(&mut self)
        requires
            old(self).wf(),
        ensures
            final(self).wf(),
            final(self).is_dense(),
            final(self)@ == old(self)@,
    {
        if self.using_dense_storage {
            return ;
        }
        self.changes_vec.resize(PARTITION_AREA, None);
        assert(forall|i: int| 0 <= i < PARTITION_AREA ==> self.changes_vec@[i] is None);
        let ghost entries = self.changes_map@;
        let ghost pairs = spec_hash_map_iter(&self.changes_map).remaining();
        proof {
            axiom_spec_hash_map_iter(&self.changes_map);
        }
        for entry in iter: self.changes_map.iter()
            invariant
                self.changes_vec@.len() == PARTITION_AREA,
                iter.seq() == pairs,
                forall|key: u16| entries.contains_key(key) ==> is_local_key(key),
                forall|i: int|
                    0 <= i < pairs.len() ==> entries.contains_key(*(#[trigger] pairs[i]).0)
                        && entries[*pairs[i].0] == *pairs[i].1,
                forall|i: int|
                    0 <= i < iter.index() ==> self.changes_vec@[dense_index(
                        *(#[trigger] pairs[i]).0,
                    )] is Some,
                forall|key: u16|
                    is_local_key(key) && (#[trigger] self.changes_vec@[dense_index(key)]) is Some
                        ==> entries.contains_key(key) && self.changes_vec@[dense_index(key)]
                        == Some(entries[key]),
        {
            let (key, val) = entry;
            assert(entry == pairs[iter.index()]);
            assert(is_local_key(*key));
            let internal_pos_x: u16 = *key >> 8;
            let internal_pos_y: u16 = *key & 0x00ff;
            assert(internal_pos_x == *key / 256 && internal_pos_y == *key % 256) by (bit_vector)
                requires
                    internal_pos_x == *key >> 8,
                    internal_pos_y == *key & 0x00ff,
            ;
            let index: usize = internal_pos_x as usize + (PARTITION_SIZE as usize) * (
            internal_pos_y as usize);
            let ghost earlier = self.changes_vec@;
            self.changes_vec[index] = Some(*val);
            proof {
                assert forall|other: u16| is_local_key(other) && other != *key implies dense_index(
                    other,
                ) != dense_index(*key) by {}
                assert forall|i: int| 0 <= i < iter.index() + 1 implies self.changes_vec@[
                    dense_index(*(#[trigger] pairs[i]).0)
                ] is Some by {
                    assert(is_local_key(*pairs[i].0));
                    if i < iter.index() {
                        assert(earlier[dense_index(*pairs[i].0)] is Some);
                    }
                }
            }
        }
        proof {
            assert forall|key: u16| entries.contains_key(key) implies self.changes_vec@[
                dense_index(key)
            ] == Some(entries[key]) by {
                assert(pairs.contains((&key, &entries[key])));
                let i = choose|i: int| 0 <= i < pairs.len() && pairs[i] == (&key, &entries[key]);
                assert(*pairs[i].0 == key);
            }
        }
        self.changes_map.clear();
        self.using_dense_storage = true;
        assert(self@ =~= entries);
    }

    /// Moves every edit from the array back into the hash map. The edits stay
    /// what they were. Does nothing to a chunk that is sparse already.
    pub fn _switch_to_sparse(&mut self)
        requires
            old(self).wf(),
        ensures
            final(self).wf(),
            !final(self).is_dense(),
            final(self)@ == old(self)@,
    {
        if !self.using_dense_storage {
            return ;
        }
        let ghost before = self@;
        for x in 0..PARTITION_SIZE
            invariant
                self.using_dense_storage,
                self.changes_vec@ == old(self).changes_vec@,
                self.changes_vec@.len() == PARTITION_AREA,
                forall|key: u16|
                    #[trigger] self.changes_map@.contains_key(key) <==> is_local_key(key) && key
                        / 256 < x && self.changes_vec@[dense_index(key)] is Some,
                forall|key: u16|
                    #[trigger] self.changes_map@.contains_key(key) ==> Some(
                        self.changes_map@[key],
                    ) == self.changes_vec@[dense_index(key)],
        {
            for y in 0..PARTITION_SIZE
                invariant
                    x < PARTITION_SIZE,
                    self.using_dense_storage,
                    self.changes_vec@ == old(self).changes_vec@,
                    self.changes_vec@.len() == PARTITION_AREA,
                    forall|key: u16|
                        #[trigger] self.changes_map@.contains_key(key) <==> is_local_key(key) && (
                        key / 256 < x || (key / 256 == x && key % 256 < y))
                            && self.changes_vec@[dense_index(key)] is Some,
                    forall|key: u16|
                        #[trigger] self.changes_map@.contains_key(key) ==> Some(
                            self.changes_map@[key],
                        ) == self.changes_vec@[dense_index(key)],
            {
                let index: usize = x as usize + (PARTITION_SIZE as usize) * (y as usize);
                let internal_key: u16 = sparse_key_of(x, y);
                match self.changes_vec[index] {
                    Some(value) => {
                        self.changes_map.insert(internal_key, value);
                    },
                    None => {},
                }
            }
        }
        self.changes_vec.clear();
        self.using_dense_storage = false;
        assert(self@ =~= before);
    }
}

} // verus!
