//! The read cache: a bounded map from cell keys to tiles that drops the entry
//! that went unused the longest when it is full.
//!
//! The cache itself is `lru::LruCache`. The functions named `lru_..` call its
//! methods and are believed, not proved: each states what the method it calls
//! does to the entries, as the source of the method shows it. What this module
//! says of `touched` and `touched_all` is proved.

use lru::LruCache;
use std::num::NonZeroUsize;
use vstd::prelude::*;
use crate::tile_world::grid::TileValue;

verus! {

/// `lru::LruCache`, taken as it is: nothing of its inside is known here.
#[verifier::external_type_specification]
#[verifier::external_body]
#[verifier::reject_recursive_types(K)]
#[verifier::reject_recursive_types(V)]
#[verifier::reject_recursive_types(S)]
pub struct ExLruCache<K, V, S>(LruCache<K, V, S>);

/// `lru::DefaultHasher`, the hasher that a cache is built with unless it is
/// given another. Nothing is said of it.
#[verifier::external_type_specification]
#[verifier::external_body]
pub struct ExLruHasher(lru::DefaultHasher);

/// What a cache holds: its entries, the most recently used first.
pub uninterp spec fn lru_entries(cache: LruCache<u128, TileValue>) -> Seq<(u128, TileValue)>;

/// The number of entries that a cache holds at most.
pub uninterp spec fn lru_capacity(cache: LruCache<u128, TileValue>) -> nat;

/// `entries` without the entries for `key`, the others in their order.
pub open spec fn without_key(entries: Seq<(u128, TileValue)>, key: u128) -> Seq<
    (u128, TileValue),
> {
    entries.filter(|entry: (u128, TileValue)| entry.0 != key)
}

/// The entries of a cache of the given capacity after `key` was used with
/// `value`: that entry first, then the others in their order, the last of them
/// dropped where the cache would hold more than its capacity.
pub open spec fn touched(
    entries: Seq<(u128, TileValue)>,
    capacity: nat,
    key: u128,
    value: TileValue,
) -> Seq<(u128, TileValue)> {
    let others = without_key(entries, key);
    if capacity == 0 {
        Seq::empty()
    } else if others.len() >= capacity {
        seq![(key, value)] + others.take(capacity - 1)
    } else {
        seq![(key, value)] + others
    }
}

/// The entries of a cache after every use of `uses`, the first of them
/// first: a use is a key and the value that was read or written for it.
pub open spec fn touched_all(
    entries: Seq<(u128, TileValue)>,
    capacity: nat,
    uses: Seq<(u128, TileValue)>,
) -> Seq<(u128, TileValue)>
    decreases uses.len(),
{
    if uses.len() == 0 {
        entries
    } else {
        touched(
            touched_all(entries, capacity, uses.drop_last()),
            capacity,
            uses.last().0,
            uses.last().1,
        )
    }
}

/// The first `capacity` of `entries`, or all of them where there are fewer.
pub open spec fn shrunk(entries: Seq<(u128, TileValue)>, capacity: nat) -> Seq<(u128, TileValue)> {
    if entries.len() > capacity {
        entries.take(capacity as int)
    } else {
        entries
    }
}

/// Every entry of `without_key` is an entry for another key, and an entry for
/// `key` makes it shorter than `entries`.
pub proof fn lemma_without_key(entries: Seq<(u128, TileValue)>, key: u128)
    ensures
        without_key(entries, key).len() <= entries.len(),
        forall|i: int|
            0 <= i < without_key(entries, key).len() ==> entries.contains(
                #[trigger] without_key(entries, key)[i],
            ) && without_key(entries, key)[i].0 != key,
        forall|i: int|
            0 <= i < entries.len() && (#[trigger] entries[i]).0 == key ==> without_key(
                entries,
                key,
            ).len() < entries.len(),
    decreases entries.len(),
{
    reveal(Seq::filter);
    if entries.len() > 0 {
        let front = entries.drop_last();
        lemma_without_key(front, key);
        assert forall|i: int| 0 <= i < without_key(entries, key).len() implies entries.contains(
            #[trigger] without_key(entries, key)[i],
        ) && without_key(entries, key)[i].0 != key by {
            if i < without_key(front, key).len() {
                let entry = without_key(front, key)[i];
                assert(front.contains(entry));
                let j = choose|j: int| 0 <= j < front.len() && front[j] == entry;
                assert(entries[j] == entry);
            } else {
                assert(without_key(entries, key)[i] == entries.last());
            }
        }
        assert forall|i: int| 0 <= i < entries.len() && (#[trigger] entries[i]).0
            == key implies without_key(entries, key).len() < entries.len() by {
            if i < front.len() {
                assert(front[i] == entries[i]);
            }
        }
    }
}

/// Every entry of `touched` is the new entry or an earlier entry for another
/// key, and `touched` keeps within the capacity.
pub proof fn lemma_touched(
    entries: Seq<(u128, TileValue)>,
    capacity: nat,
    key: u128,
    value: TileValue,
)
    ensures
        touched(entries, capacity, key, value).len() <= capacity,
        forall|i: int|
            0 <= i < touched(entries, capacity, key, value).len() ==> {
                let entry = #[trigger] touched(entries, capacity, key, value)[i];
                entry == (key, value) || (entries.contains(entry) && entry.0 != key)
            },
{
    lemma_without_key(entries, key);
}

/// One more use after `uses` touches what `uses` left.
pub proof fn lemma_touched_all_push(
    entries: Seq<(u128, TileValue)>,
    capacity: nat,
    uses: Seq<(u128, TileValue)>,
    key: u128,
    value: TileValue,
)
    ensures
        touched_all(entries, capacity, uses.push((key, value))) == touched(
            touched_all(entries, capacity, uses),
            capacity,
            key,
            value,
        ),
{
    assert(uses.push((key, value)).drop_last() =~= uses);
}

/// The uses of `first` followed by those of `second` leave what those of
/// `second` leave of what those of `first` left.
pub proof fn lemma_touched_all_concat(
    entries: Seq<(u128, TileValue)>,
    capacity: nat,
    first: Seq<(u128, TileValue)>,
    second: Seq<(u128, TileValue)>,
)
    ensures
        touched_all(entries, capacity, first + second) == touched_all(
            touched_all(entries, capacity, first),
            capacity,
            second,
        ),
    decreases second.len(),
{
    if second.len() == 0 {
        assert(first + second =~= first);
    } else {
        lemma_touched_all_concat(entries, capacity, first, second.drop_last());
        assert((first + second).drop_last() =~= first + second.drop_last());
    }
}

/// `LruCache::new`: an empty cache that holds at most `capacity` entries. The
/// call reserves room for that many, so the capacity is kept small enough for
/// the reservation to be one that any machine can size.
#[verifier::external_body]
pub(crate) fn lru_new(capacity: usize) -> (cache: LruCache<u128, TileValue>)
    requires
        0 < capacity <= 0x1_0000,
    ensures
        lru_entries(cache) == Seq::<(u128, TileValue)>::empty(),
        lru_capacity(cache) == capacity,
{
    LruCache::new(NonZeroUsize::new(capacity).unwrap())
}

/// `LruCache::get`: the value stored for `key`, if there is one. A key that is
/// found moves to the front; the other entries keep their order.
#[verifier::external_body]
pub(crate) fn lru_get(cache: &mut LruCache<u128, TileValue>, key: u128) -> (found: Option<
    TileValue,
>)
    ensures
        lru_capacity(*final(cache)) == lru_capacity(*old(cache)),
        match found {
            Some(value) => lru_entries(*old(cache)).contains((key, value)) && lru_entries(
                *final(cache),
            ) == seq![(key, value)] + without_key(lru_entries(*old(cache)), key),
            None => without_key(lru_entries(*old(cache)), key) == lru_entries(*old(cache))
                && lru_entries(*final(cache)) == lru_entries(*old(cache)),
        },
{
    cache.get(&key).copied()
}

/// `LruCache::put`: stores `value` for `key` as the most recently used entry.
/// An entry that `key` had is replaced; where the key is new and the cache is
/// full, the entry at the back leaves.
#[verifier::external_body]
pub(crate) fn lru_put(cache: &mut LruCache<u128, TileValue>, key: u128, value: TileValue)
    ensures
        lru_capacity(*final(cache)) == lru_capacity(*old(cache)),
        lru_entries(*final(cache)) == touched(
            lru_entries(*old(cache)),
            lru_capacity(*old(cache)),
            key,
            value,
        ),
{
    cache.put(key, value);
}

/// `LruCache::resize`: sets the capacity, and drops entries from the back
/// while there are more than the cache may now hold.
#[verifier::external_body]
pub(crate) fn lru_resize(cache: &mut LruCache<u128, TileValue>, capacity: usize)
    requires
        capacity > 0,
    ensures
        lru_capacity(*final(cache)) == capacity,
        lru_entries(*final(cache)) == shrunk(lru_entries(*old(cache)), capacity as nat),
{
    cache.resize(NonZeroUsize::new(capacity).unwrap());
}

/// `LruCache::clear`: drops every entry and keeps the capacity.
#[verifier::external_body]
pub(crate) fn lru_clear(cache: &mut LruCache<u128, TileValue>)
    ensures
        lru_capacity(*final(cache)) == lru_capacity(*old(cache)),
        lru_entries(*final(cache)) == Seq::<(u128, TileValue)>::empty(),
{
    cache.clear();
}

} // verus!
