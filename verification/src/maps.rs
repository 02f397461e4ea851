//! The two concurrent maps of the storage, and what this library relies on them for.
//!
//! Both are `DashMap`s, which synchronise their callers with one lock per shard. Every function
//! here that changes a map borrows it exclusively, so that what the map holds is a value like any
//! other: each says what the map holds after the call in terms of what it held before.
use crate::task::{TaskFlags, TaskStorage};
use dashmap::DashMap;
use rustc_hash::FxHasher;
use std::hash::BuildHasherDefault;
use vstd::prelude::*;

verus! {

/// `dashmap::DashMap`: a concurrent hash map, split into shards.
#[verifier::external_type_specification]
#[verifier::external_body]
#[verifier::reject_recursive_types(K)]
#[verifier::reject_recursive_types(V)]
#[verifier::reject_recursive_types(S)]
pub struct ExDashMap<K, V, S>(DashMap<K, V, S>);

/// `rustc_hash::FxHasher`: a fast hasher without a seed.
#[verifier::external_type_specification]
#[verifier::external_body]
pub struct ExFxHasher(FxHasher);

/// `std::hash::BuildHasherDefault`: makes hashers by their `Default`.
#[verifier::external_type_specification]
#[verifier::external_body]
#[verifier::reject_recursive_types(H)]
pub struct ExBuildHasherDefault<H>(BuildHasherDefault<H>);

/// The tasks, by identifier.
pub type TaskMap = DashMap<u32, Box<TaskStorage>, BuildHasherDefault<FxHasher>>;

/// The copies kept for a snapshot, by the identifier of the task.
pub type SnapshotMap = DashMap<u32, Option<Box<TaskStorage>>, BuildHasherDefault<FxHasher>>;

/// The tasks that a map holds.
pub uninterp spec fn task_map_contents(map: TaskMap) -> Map<u32, TaskStorage>;

/// The number of shards that a map of tasks was made with.
pub uninterp spec fn task_map_shards(map: TaskMap) -> nat;

/// The copies that a map holds.
pub uninterp spec fn snapshot_map_contents(map: SnapshotMap) -> Map<u32, Option<Box<TaskStorage>>>;

/// The number of shards that a map of copies was made with.
pub uninterp spec fn snapshot_map_shards(map: SnapshotMap) -> nat;

/// The hash of an identifier on a machine with words of some number of bits.
pub uninterp spec fn task_hash(id: u32, word_bits: u32) -> usize;

/// The shard to which a hash belongs in a map of `shards` shards: the hash without its highest
/// seven bits, which the tables inside the shards use, is cut into equal ranges, one per shard.
pub open spec fn shard_of_hash(hash: usize, shards: nat) -> int {
    ((hash * 128) % (usize::MAX + 1)) / ((usize::MAX + 1) / (shards as int))
}

/// The shard to which an identifier belongs in a map of `shards` shards.
pub open spec fn shard_of_task(id: u32, shards: nat) -> int {
    shard_of_hash(task_hash(id, usize::BITS), shards)
}

/// The numbers of shards that a map can be made with: the powers of two from two on, which are the
/// divisors of the number of hashes, as far as the table of the shards, each of which takes up at
/// most 256 bytes, can be allocated.
pub open spec fn is_shard_amount(shards: nat) -> bool {
    &&& 1 < shards <= isize::MAX / 256
    &&& (usize::MAX + 1) % (shards as int) == 0
}

/// Each hash belongs to one of the shards.
pub proof fn lemma_shard_in_range(hash: usize, shards: nat)
    requires
        is_shard_amount(shards),
    ensures
        0 <= shard_of_hash(hash, shards) < shards,
{
    let hashes = usize::MAX + 1;
    let slots = shards as int;
    let width = hashes / slots;
    let x = (hash * 128) % hashes;
    vstd::arithmetic::div_mod::lemma_fundamental_div_mod(hashes, slots);
    assert(width > 0 && 0 <= x / width < slots) by (nonlinear_arith)
        requires
            0 <= x < hashes,
            hashes == slots * width,
            slots > 0,
            hashes > 0,
    ;
}

/// Makes a map of tasks with `DashMap::with_capacity_and_hasher_and_shard_amount`: it holds
/// nothing and has the number of shards asked for. The capacity decides on no more than what is
/// allocated at first.
#[verifier::external_body]
pub(crate) fn new_task_map(capacity: usize, shard_amount: usize) -> (map: TaskMap)
    requires
        is_shard_amount(shard_amount as nat),
        capacity <= 1024 * 1024,
    ensures
        task_map_contents(map).is_empty(),
        task_map_shards(map) == shard_amount,
{
    DashMap::with_capacity_and_hasher_and_shard_amount(capacity, Default::default(), shard_amount)
}

/// The length of `DashMap::shards`: the number of shards that the map was made with.
#[verifier::external_body]
pub(crate) fn task_shard_amount(map: &TaskMap) -> (amount: usize)
    ensures
        amount == task_map_shards(*map),
{
    map.shards().len()
}

/// `DashMap::hash_usize`: the hash of an identifier, which depends on nothing but the size of a
/// word, since the hasher has no seed.
#[verifier::external_body]
pub(crate) fn hash_task_id(map: &TaskMap, id: u32) -> (hash: usize)
    ensures
        hash == task_hash(id, usize::BITS),
{
    map.hash_usize(&id)
}

/// `DashMap::determine_shard`: the shard to which a hash belongs.
#[verifier::external_body]
pub(crate) fn determine_task_shard(map: &TaskMap, hash: usize) -> (shard: usize)
    ensures
        shard == shard_of_hash(hash, task_map_shards(*map)),
{
    map.determine_shard(hash)
}

/// `DashMap::entry`, taking the task that is there or else putting the one given in its place.
#[verifier::external_body]
pub(crate) fn insert_task_if_absent(map: &mut TaskMap, id: u32, task: Box<TaskStorage>)
    ensures
        task_map_contents(*final(map)) == if task_map_contents(*old(map)).contains_key(id) {
            task_map_contents(*old(map))
        } else {
            task_map_contents(*old(map)).insert(id, *task)
        },
        task_map_shards(*final(map)) == task_map_shards(*old(map)),
{
    map.entry(id).or_insert(task);
}

/// `DashMap::get_mut`, exchanging the task that is there for the one given; where there is none,
/// nothing changes and the result is `false`.
#[verifier::external_body]
pub(crate) fn swap_task(map: &mut TaskMap, id: u32, task: &mut Box<TaskStorage>) -> (found: bool)
    ensures
        found == task_map_contents(*old(map)).contains_key(id),
        found ==> **final(task) == task_map_contents(*old(map))[id],
        found ==> task_map_contents(*final(map)) == task_map_contents(*old(map)).insert(
            id,
            **old(task),
        ),
        !found ==> **final(task) == **old(task),
        !found ==> task_map_contents(*final(map)) == task_map_contents(*old(map)),
        task_map_shards(*final(map)) == task_map_shards(*old(map)),
{
    map.get_mut(&id).map(|mut entry| std::mem::swap(entry.value_mut(), task)).is_some()
}

/// `DashMap::view`: hands the task that is there to a function, which reads it in its place while
/// its shard is locked, and hands out what comes of that; where there is none, the function is not
/// called and the result is `None`.
#[verifier::external_body]
pub(crate) fn view_task<R, F: FnOnce(&TaskStorage) -> R>(map: &TaskMap, id: u32, work: F) -> (result:
    Option<R>)
    requires
        task_map_contents(*map).contains_key(id) ==> call_requires(
            work,
            (&task_map_contents(*map)[id],),
        ),
    ensures
        match result {
            Some(result) => task_map_contents(*map).contains_key(id) && call_ensures(
                work,
                (&task_map_contents(*map)[id],),
                result,
            ),
            None => !task_map_contents(*map).contains_key(id),
        },
{
    map.view(&id, |_, task| work(task))
}

/// `DashMap::iter`: every identifier in the map, once each and in no known order, with the flags
/// of its task.
#[verifier::external_body]
pub(crate) fn list_task_flags(map: &TaskMap) -> (list: Vec<(u32, TaskFlags)>)
    ensures
        forall|i: int, j: int| 0 <= i < j < list@.len() ==> list@[i].0 != list@[j].0,
        forall|i: int|
            0 <= i < list@.len() ==> task_map_contents(*map).contains_key(#[trigger] list@[i].0)
                && task_map_contents(*map)[list@[i].0].flags == list@[i].1,
        forall|id: u32| #[trigger]
            task_map_contents(*map).contains_key(id) ==> exists|i: int|
                0 <= i < list@.len() && #[trigger] list@[i].0 == id,
{
    map.iter().map(|entry| (*entry.key(), entry.value().flags)).collect()
}

/// `DashMap::clear`: nothing is left in the map.
#[verifier::external_body]
pub(crate) fn clear_tasks(map: &mut TaskMap)
    ensures
        task_map_contents(*final(map)).is_empty(),
        task_map_shards(*final(map)) == task_map_shards(*old(map)),
{
    map.clear()
}

/// Makes a map of copies with `DashMap::with_capacity_and_hasher_and_shard_amount`, with no
/// capacity at first: it holds nothing and has the number of shards asked for.
#[verifier::external_body]
pub(crate) fn new_snapshot_map(shard_amount: usize) -> (map: SnapshotMap)
    requires
        is_shard_amount(shard_amount as nat),
    ensures
        snapshot_map_contents(map).is_empty(),
        snapshot_map_shards(map) == shard_amount,
{
    DashMap::with_capacity_and_hasher_and_shard_amount(0, Default::default(), shard_amount)
}

/// `DashMap::insert`, putting an entry in the place of the one that is there.
#[verifier::external_body]
pub(crate) fn insert_snapshot(map: &mut SnapshotMap, id: u32, copy: Option<Box<TaskStorage>>)
    ensures
        snapshot_map_contents(*final(map)) == snapshot_map_contents(*old(map)).insert(id, copy),
        snapshot_map_shards(*final(map)) == snapshot_map_shards(*old(map)),
{
    map.insert(id, copy);
}

/// `DashMap::get_mut`, taking the copy out of the entry that is there and leaving the entry
/// without one; where there is no entry, nothing changes and the result is `None`.
#[verifier::external_body]
pub(crate) fn take_snapshot_copy(map: &mut SnapshotMap, id: u32) -> (copy: Option<
    Option<Box<TaskStorage>>,
>)
    ensures
        snapshot_map_contents(*old(map)).contains_key(id) ==> copy == Some(
            snapshot_map_contents(*old(map))[id],
        ),
        !snapshot_map_contents(*old(map)).contains_key(id) ==> copy is None,
        snapshot_map_contents(*final(map)) == if copy is Some {
            snapshot_map_contents(*old(map)).insert(id, None)
        } else {
            snapshot_map_contents(*old(map))
        },
        snapshot_map_shards(*final(map)) == snapshot_map_shards(*old(map)),
{
    map.get_mut(&id).map(|mut entry| entry.take())
}

/// `DashMap::remove`: removes the entry that is there and hands it out.
#[verifier::external_body]
pub(crate) fn remove_snapshot(map: &mut SnapshotMap, id: u32) -> (copy: Option<
    Option<Box<TaskStorage>>,
>)
    ensures
        snapshot_map_contents(*old(map)).contains_key(id) ==> copy == Some(
            snapshot_map_contents(*old(map))[id],
        ),
        !snapshot_map_contents(*old(map)).contains_key(id) ==> copy is None,
        snapshot_map_contents(*final(map)) == snapshot_map_contents(*old(map)).remove(id),
        snapshot_map_shards(*final(map)) == snapshot_map_shards(*old(map)),
{
    map.remove(&id).map(|entry| entry.1)
}

/// The length of `DashMap::shards`: the number of shards that the map was made with.
#[verifier::external_body]
pub(crate) fn snapshot_shard_amount(map: &SnapshotMap) -> (amount: usize)
    ensures
        amount == snapshot_map_shards(*map),
{
    map.shards().len()
}

/// `RawTable::drain` on one of `DashMap::shards`: removes the entries of the shard and hands
/// their identifiers out, once each and in no known order.
#[verifier::external_body]
pub(crate) fn drain_snapshot_shard(map: &mut SnapshotMap, shard: usize) -> (ids: Vec<u32>)
    requires
        shard < snapshot_map_shards(*old(map)),
    ensures
        ids@.no_duplicates(),
        forall|id: u32| #[trigger]
            ids@.contains(id) <==> snapshot_map_contents(*old(map)).contains_key(id)
                && shard_of_task(id, snapshot_map_shards(*old(map))) == shard,
        snapshot_map_contents(*final(map)) == snapshot_map_contents(*old(map)).remove_keys(
            ids@.to_set(),
        ),
        snapshot_map_shards(*final(map)) == snapshot_map_shards(*old(map)),
{
    map.shards()[shard].write().drain().map(|entry| entry.0).collect()
}

/// `RawTable::capacity` on one of `DashMap::shards`: how many entries the shard has room for,
/// which is up to how it was allocated.
#[verifier::external_body]
pub(crate) fn snapshot_shard_capacity(map: &SnapshotMap, shard: usize) -> (capacity: usize)
    requires
        shard < snapshot_map_shards(*map),
{
    map.shards()[shard].read().capacity()
}

/// `RawTable::shrink_to` on one of `DashMap::shards` that holds nothing, down to no capacity: the
/// map holds what it held. An empty table hashes none of its entries, so the function that it
/// takes for that is never called.
#[verifier::external_body]
pub(crate) fn shrink_empty_snapshot_shard(map: &mut SnapshotMap, shard: usize)
    requires
        shard < snapshot_map_shards(*old(map)),
        forall|id: u32| #[trigger]
            snapshot_map_contents(*old(map)).contains_key(id) ==> shard_of_task(
                id,
                snapshot_map_shards(*old(map)),
            ) != shard,
    ensures
        snapshot_map_contents(*final(map)) == snapshot_map_contents(*old(map)),
        snapshot_map_shards(*final(map)) == snapshot_map_shards(*old(map)),
{
    map.shards()[shard].write().shrink_to(0, |entry| entry.0 as u64)
}

/// `DashMap::clear`: nothing is left in the map.
#[verifier::external_body]
pub(crate) fn clear_snapshots(map: &mut SnapshotMap)
    ensures
        snapshot_map_contents(*final(map)).is_empty(),
        snapshot_map_shards(*final(map)) == snapshot_map_shards(*old(map)),
{
    map.clear()
}

} // verus!
