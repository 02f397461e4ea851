//! What each operation does to what a storage holds, task by task and field by field.
use crate::category::{SpecificTaskDataCategory, TaskDataCategory};
use crate::model::{ShardView, StorageView};
use crate::scratch::{ScratchBufferError, ScratchBufferSlot};
use crate::snapshot::{SnapshotShard, Visit};
use crate::task::{
    SnapshotItem, TaskFlags, TaskId, TaskStorage, TaskView, TurboBincodeBuffer,
};
use vstd::prelude::*;

verus! {

/// Each category selects what its name says, and `All` selects both.
pub proof fn law_categories_select_what_they_name(category: TaskDataCategory)
    ensures
        category.includes_meta() <==> category is Meta || category is All,
        category.includes_data() <==> category is Data || category is All,
        category.includes_meta() || category.includes_data(),
{
}

/// The single category that is selected is the one that the selection names.
pub proof fn law_single_categories_are_the_ones_selected(category: TaskDataCategory)
    requires
        !(category is All),
    ensures
        category.into_specific() is Meta <==> category.includes_meta(),
        category.into_specific() is Data <==> category.includes_data(),
{
}

/// Each category has a key space of its own, which is named after it.
pub proof fn law_categories_have_key_spaces_of_their_own(
    category: SpecificTaskDataCategory,
    other: SpecificTaskDataCategory,
)
    ensures
        category.key_space() == other.key_space() <==> category == other,
        category.key_space() is TaskMeta <==> category is Meta,
        category.key_space() is TaskData <==> category is Data,
{
}

/// A preallocation that is not small is for a thousand times as many tasks as a small one, in binary
/// thousands, and a small one is for one thousand.
pub proof fn law_preallocations_differ_by_a_binary_thousand(small: bool)
    ensures
        crate::storage::map_capacity(small) == if small {
            0x400int
        } else {
            0x400int * 0x400int
        },
{
}

/// A shard is worth shrinking from one capacity on, which is the first above a binary thousand.
pub proof fn law_larger_shards_are_worth_shrinking(capacity: usize, larger: usize)
    requires
        capacity <= larger,
    ensures
        crate::storage::is_worth_shrinking(capacity) ==> crate::storage::is_worth_shrinking(larger),
        crate::storage::is_worth_shrinking(capacity) <==> capacity >= 0x401,
{
}

/// The transient tasks are those with the highest bit of their identifier set.
pub proof fn law_transient_tasks_have_the_highest_bit(id: u32)
    ensures
        crate::task::is_transient_id(id) <==> id & 0x8000_0000u32 != 0,
{
    assert(id >= 0x8000_0000u32 <==> id & 0x8000_0000u32 != 0) by (bit_vector);
}

/// What is known of a task is all that it holds.
pub proof fn law_all_fields_of_a_task_are_known(task: TaskStorage)
    ensures
        task@.flags == task.flags,
        task@.meta == task.meta@,
        task@.data == task.data@,
        task@.transient == task.transient@,
{
}

/// An item is empty if it holds neither meta data nor data.
pub proof fn law_items_without_fields_are_empty(item: SnapshotItem)
    ensures
        item.is_empty() <==> item.meta is None && item.data is None,
{
}

/// A blank task has no flag set and holds nothing.
pub proof fn law_blank_task_holds_nothing()
    ensures
        ({
            let flags = TaskFlags::none();
            &&& !flags.meta_restored && !flags.data_restored
            &&& !flags.meta_modified && !flags.data_modified
            &&& !flags.meta_modified_during_snapshot && !flags.data_modified_during_snapshot
            &&& !flags.new_task
        }),
        ({
            let task = TaskView::blank();
            &&& !task.flags.meta_restored && !task.flags.data_restored
            &&& !task.flags.meta_modified && !task.flags.data_modified
            &&& !task.flags.meta_modified_during_snapshot
            &&& !task.flags.data_modified_during_snapshot
            &&& !task.flags.new_task
            &&& task.meta.len() == 0 && task.data.len() == 0 && task.transient.len() == 0
        }),
{
}

/// What the flags of a task say of one category, or of either.
pub proof fn law_flags_are_read_by_category(flags: TaskFlags)
    ensures
        flags.is_modified(SpecificTaskDataCategory::Meta) == flags.meta_modified,
        flags.is_modified(SpecificTaskDataCategory::Data) == flags.data_modified,
        flags.is_modified_during_snapshot(SpecificTaskDataCategory::Meta)
            == flags.meta_modified_during_snapshot,
        flags.is_modified_during_snapshot(SpecificTaskDataCategory::Data)
            == flags.data_modified_during_snapshot,
        flags.any_modified() <==> flags.meta_modified || flags.data_modified,
        flags.any_modified_during_snapshot() <==> flags.meta_modified_during_snapshot
            || flags.data_modified_during_snapshot,
{
}

/// Setting the flags of a category sets those and no others.
pub proof fn law_flags_are_set_by_category(
    flags: TaskFlags,
    selected: TaskDataCategory,
    category: SpecificTaskDataCategory,
    value: bool,
)
    ensures
        ({
            let restored = flags.with_restored(selected);
            &&& restored.meta_restored == (flags.meta_restored || !(selected is Data))
            &&& restored.data_restored == (flags.data_restored || !(selected is Meta))
            &&& restored.meta_modified == flags.meta_modified
            &&& restored.data_modified == flags.data_modified
            &&& restored.meta_modified_during_snapshot == flags.meta_modified_during_snapshot
            &&& restored.data_modified_during_snapshot == flags.data_modified_during_snapshot
            &&& restored.new_task == flags.new_task
        }),
        ({
            let set = flags.with_modified(category, value);
            &&& set.meta_restored == flags.meta_restored
            &&& set.data_restored == flags.data_restored
            &&& set.meta_modified == if category is Meta {
                value
            } else {
                flags.meta_modified
            }
            &&& set.data_modified == if category is Data {
                value
            } else {
                flags.data_modified
            }
            &&& set.meta_modified_during_snapshot == flags.meta_modified_during_snapshot
            &&& set.data_modified_during_snapshot == flags.data_modified_during_snapshot
            &&& set.new_task == flags.new_task
        }),
        ({
            let set = flags.with_modified_during_snapshot(category, value);
            &&& set.meta_restored == flags.meta_restored
            &&& set.data_restored == flags.data_restored
            &&& set.meta_modified == flags.meta_modified
            &&& set.data_modified == flags.data_modified
            &&& set.meta_modified_during_snapshot == if category is Meta {
                value
            } else {
                flags.meta_modified_during_snapshot
            }
            &&& set.data_modified_during_snapshot == if category is Data {
                value
            } else {
                flags.data_modified_during_snapshot
            }
            &&& set.new_task == flags.new_task
        }),
{
}

/// Promoting a task leaves no category of it modified during a snapshot, and modified each of those
/// that were; persisting it leaves none modified, and the task not new.
pub proof fn law_flags_are_promoted_and_persisted(flags: TaskFlags)
    ensures
        ({
            let promoted = flags.promoted();
            &&& promoted.meta_restored == flags.meta_restored
            &&& promoted.data_restored == flags.data_restored
            &&& promoted.meta_modified == (flags.meta_modified
                || flags.meta_modified_during_snapshot)
            &&& promoted.data_modified == (flags.data_modified
                || flags.data_modified_during_snapshot)
            &&& !promoted.meta_modified_during_snapshot
            &&& !promoted.data_modified_during_snapshot
            &&& promoted.new_task == flags.new_task
        }),
        ({
            let persisted = flags.persisted();
            &&& persisted.meta_restored == flags.meta_restored
            &&& persisted.data_restored == flags.data_restored
            &&& !persisted.meta_modified && !persisted.data_modified
            &&& persisted.meta_modified_during_snapshot == flags.meta_modified_during_snapshot
            &&& persisted.data_modified_during_snapshot == flags.data_modified_during_snapshot
            &&& !persisted.new_task
        }),
{
}

/// The copy that a snapshot keeps of a task holds the same meta data and data, byte for byte, and
/// says of them what the task says: which are modified, and whether the task is new. It holds
/// nothing else.
pub proof fn law_copies_hold_what_is_persisted(task: TaskView)
    ensures
        ({
            let copy = task.snapshot_copy();
            &&& copy.meta == task.meta
            &&& copy.data == task.data
            &&& copy.transient.len() == 0
            &&& copy.flags.meta_modified == task.flags.meta_modified
            &&& copy.flags.data_modified == task.flags.data_modified
            &&& copy.flags.new_task == task.flags.new_task
            &&& !copy.flags.meta_restored && !copy.flags.data_restored
            &&& !copy.flags.meta_modified_during_snapshot
            &&& !copy.flags.data_modified_during_snapshot
        }),
{
}

/// A hash belongs to the shard in whose range it is, when the hashes without their highest seven
/// bits are cut into equal ranges.
pub proof fn law_shards_are_equal_ranges(hash: usize, shards: nat)
    requires
        crate::maps::is_shard_amount(shards),
    ensures
        ({
            let width = (usize::MAX + 1) / (shards as int);
            let shard = crate::maps::shard_of_hash(hash, shards);
            &&& width * shards == usize::MAX + 1
            &&& 0 <= shard < shards
            &&& width * shard <= (hash * 128) % (usize::MAX + 1) < width * (shard + 1)
        }),
{
    let hashes = usize::MAX + 1;
    let slots = shards as int;
    let width = hashes / slots;
    let x = (hash * 128) % hashes;
    crate::maps::lemma_shard_in_range(hash, shards);
    vstd::arithmetic::div_mod::lemma_fundamental_div_mod(hashes, slots);
    assert(width * slots == hashes) by (nonlinear_arith)
        requires
            hashes == slots * width,
    ;
    assert(width > 0) by (nonlinear_arith)
        requires
            width * slots == hashes,
            hashes > 0,
            slots > 0,
    ;
    vstd::arithmetic::div_mod::lemma_fundamental_div_mod(x, width);
    let shard = x / width;
    assert(width * (shard + 1) == width * shard + width) by (nonlinear_arith);
}

/// A task belongs to the shard to which its hash belongs, which is one of the shards.
pub proof fn law_tasks_belong_to_the_shard_of_their_hash(id: u32, shards: nat)
    requires
        crate::maps::is_shard_amount(shards),
    ensures
        ({
            let width = (usize::MAX + 1) / (shards as int);
            let shard = crate::maps::shard_of_task(id, shards);
            let hash = crate::maps::task_hash(id, usize::BITS);
            &&& 0 <= shard < shards
            &&& width * shard <= (hash * 128) % (usize::MAX + 1) < width * (shard + 1)
        }),
{
    law_shards_are_equal_ranges(crate::maps::task_hash(id, usize::BITS), shards);
}

/// Every power of two from two on is a number of shards that a storage can have, as far as the table
/// of the shards can be allocated.
pub proof fn law_powers_of_two_are_shard_amounts(bits: nat)
    requires
        bits > 0,
        vstd::arithmetic::power2::pow2(bits) * 256 <= isize::MAX,
    ensures
        crate::maps::is_shard_amount(vstd::arithmetic::power2::pow2(bits)),
{
    let shards = vstd::arithmetic::power2::pow2(bits);
    let all = usize::BITS as nat;
    vstd::arithmetic::power2::lemma2_to64();
    assert(vstd::arithmetic::power2::pow2(all) == usize::MAX + 1);
    if bits >= all {
        if bits > all {
            vstd::arithmetic::power2::lemma_pow2_strictly_increases(all, bits);
        }
        assert(false);
    }
    let rest = (all - bits) as nat;
    vstd::arithmetic::power2::lemma_pow2_adds(rest, bits);
    vstd::arithmetic::power2::lemma_pow2_pos(bits);
    vstd::arithmetic::div_mod::lemma_mod_multiples_basic(
        vstd::arithmetic::power2::pow2(rest) as int,
        shards as int,
    );
    vstd::arithmetic::power2::lemma_pow2_unfold(bits);
    vstd::arithmetic::power2::lemma_pow2_pos((bits - 1) as nat);
}

/// Giving access to a task leaves a storage as it is where the task is there, and adds a blank task
/// where it is not.
pub proof fn law_access_adds_a_blank_task_at_most(storage: StorageView, id: u32)
    ensures
        ({
            let after = storage.accessed(id);
            let task = after.tasks[id];
            &&& after.snapshot_mode == storage.snapshot_mode
            &&& after.counts == storage.counts
            &&& after.snapshots == storage.snapshots
            &&& after.home == storage.home
            &&& after.tasks.contains_key(id)
            &&& storage.tasks.contains_key(id) ==> task == storage.tasks[id]
            &&& !storage.tasks.contains_key(id) ==> {
                &&& !task.flags.meta_restored && !task.flags.data_restored
                &&& !task.flags.meta_modified && !task.flags.data_modified
                &&& !task.flags.meta_modified_during_snapshot
                &&& !task.flags.data_modified_during_snapshot
                &&& !task.flags.new_task
                &&& task.meta.len() == 0 && task.data.len() == 0 && task.transient.len() == 0
            }
            &&& forall|other: u32|
                #![trigger after.tasks.contains_key(other)]
                #![trigger after.tasks[other]]
                other != id ==> after.tasks.contains_key(other) == storage.tasks.contains_key(other)
                    && after.tasks[other] == storage.tasks[other]
        }),
{
}

/// Writing a task puts it in the place of the one that was there, and changes nothing else.
pub proof fn law_writing_changes_one_task(storage: StorageView, id: u32, task: TaskView)
    ensures
        ({
            let after = storage.with_task(id, task);
            &&& after.snapshot_mode == storage.snapshot_mode
            &&& after.counts == storage.counts
            &&& after.snapshots == storage.snapshots
            &&& after.home == storage.home
            &&& after.tasks.contains_key(id)
            &&& after.tasks[id] == task
            &&& forall|other: u32|
                #![trigger after.tasks.contains_key(other)]
                #![trigger after.tasks[other]]
                other != id ==> after.tasks.contains_key(other) == storage.tasks.contains_key(other)
                    && after.tasks[other] == storage.tasks[other]
        }),
{
}

/// A task that is initialized is new and restored in both categories, whether or not a snapshot is
/// being written. All else about it is as it was, or blank if the task was not there, and nothing
/// else changes.
pub proof fn law_initialized_task_is_new_and_restored(storage: StorageView, id: u32)
    ensures
        ({
            let after = storage.initialized(id);
            let task = after.tasks[id];
            let was = storage.tasks[id];
            &&& after.snapshot_mode == storage.snapshot_mode
            &&& after.counts == storage.counts
            &&& after.snapshots == storage.snapshots
            &&& after.home == storage.home
            &&& after.tasks.contains_key(id)
            &&& task.flags.new_task && task.flags.meta_restored && task.flags.data_restored
            &&& storage.tasks.contains_key(id) ==> {
                &&& task.flags.meta_modified == was.flags.meta_modified
                &&& task.flags.data_modified == was.flags.data_modified
                &&& task.flags.meta_modified_during_snapshot
                    == was.flags.meta_modified_during_snapshot
                &&& task.flags.data_modified_during_snapshot
                    == was.flags.data_modified_during_snapshot
                &&& task.meta == was.meta
                &&& task.data == was.data
                &&& task.transient == was.transient
            }
            &&& !storage.tasks.contains_key(id) ==> {
                &&& !task.flags.meta_modified && !task.flags.data_modified
                &&& !task.flags.meta_modified_during_snapshot
                &&& !task.flags.data_modified_during_snapshot
                &&& task.meta.len() == 0 && task.data.len() == 0 && task.transient.len() == 0
            }
            &&& forall|other: u32|
                #![trigger after.tasks.contains_key(other)]
                #![trigger after.tasks[other]]
                other != id ==> after.tasks.contains_key(other) == storage.tasks.contains_key(other)
                    && after.tasks[other] == storage.tasks[other]
        }),
{
}

/// Dropping the contents of a storage leaves no task and no copy of one, whatever was there: every
/// task is a blank one when it is accessed after that. Nothing else changes.
pub proof fn law_nothing_is_left_after_dropping(storage: StorageView)
    ensures
        ({
            let after = storage.emptied();
            &&& after.snapshot_mode == storage.snapshot_mode
            &&& after.counts == storage.counts
            &&& after.home == storage.home
            &&& forall|id: u32| !(#[trigger] after.tasks.contains_key(id))
            &&& forall|id: u32| !(#[trigger] after.snapshots.contains_key(id))
            &&& forall|id: u32|
                {
                    let task = #[trigger] after.accessed(id).tasks[id];
                    &&& !task.flags.meta_restored && !task.flags.data_restored
                    &&& !task.flags.meta_modified && !task.flags.data_modified
                    &&& !task.flags.meta_modified_during_snapshot
                    &&& !task.flags.data_modified_during_snapshot
                    &&& !task.flags.new_task
                    &&& task.meta.len() == 0 && task.data.len() == 0 && task.transient.len() == 0
                }
        }),
{
}

/// Keeping track of a modification outside of a snapshot marks the category as modified, unless the
/// category is marked as modified during a snapshot already. The task is counted in its shard if
/// neither category was modified, and nothing else changes.
pub proof fn law_tracking_outside_of_a_snapshot(
    storage: StorageView,
    id: u32,
    category: SpecificTaskDataCategory,
)
    requires
        storage.valid(),
        storage.tasks.contains_key(id),
        !storage.snapshot_mode,
    ensures
        ({
            let after = storage.touched(id, category);
            let task = after.tasks[id];
            let was = storage.tasks[id];
            let known = match category {
                SpecificTaskDataCategory::Meta => was.flags.meta_modified_during_snapshot,
                SpecificTaskDataCategory::Data => was.flags.data_modified_during_snapshot,
            };
            let is_first = !known && !was.flags.meta_modified && !was.flags.data_modified;
            &&& !after.snapshot_mode
            &&& after.snapshots == storage.snapshots
            &&& after.home == storage.home
            &&& after.counts.len() == storage.counts.len()
            &&& forall|shard: int|
                0 <= shard < storage.counts.len() ==> #[trigger] after.counts[shard] == if is_first
                    && shard == (storage.home)(id) {
                    (storage.counts[shard] + 1) % 0x1_0000_0000_0000_0000
                } else {
                    storage.counts[shard] as int
                }
            &&& task.flags.meta_modified == (was.flags.meta_modified || (category is Meta
                && !known))
            &&& task.flags.data_modified == (was.flags.data_modified || (category is Data
                && !known))
            &&& task.flags.meta_modified_during_snapshot == was.flags.meta_modified_during_snapshot
            &&& task.flags.data_modified_during_snapshot == was.flags.data_modified_during_snapshot
            &&& task.flags.meta_restored == was.flags.meta_restored
            &&& task.flags.data_restored == was.flags.data_restored
            &&& task.flags.new_task == was.flags.new_task
            &&& task.meta == was.meta
            &&& task.data == was.data
            &&& task.transient == was.transient
            &&& forall|other: u32| #[trigger]
                after.tasks.contains_key(other) == storage.tasks.contains_key(other)
            &&& forall|other: u32|
                other != id ==> #[trigger] after.tasks[other] == storage.tasks[other]
        }),
{
    assert(0 <= (storage.home)(id) < storage.counts.len());
}

/// Keeping track of a modification during a snapshot marks the category as modified during it, and
/// leaves all other flags and all fields of the task as they are. When the task is first modified
/// during the snapshot, note is kept of it: if a category was modified before, with a copy that
/// holds the meta data and the data of the task at that moment, byte for byte, and its flags on
/// what is to be persisted; otherwise without one. Nothing else changes.
pub proof fn law_tracking_during_a_snapshot(
    storage: StorageView,
    id: u32,
    category: SpecificTaskDataCategory,
)
    requires
        storage.tasks.contains_key(id),
        storage.snapshot_mode,
    ensures
        ({
            let after = storage.touched(id, category);
            let task = after.tasks[id];
            let was = storage.tasks[id];
            let is_first = !was.flags.meta_modified_during_snapshot
                && !was.flags.data_modified_during_snapshot;
            let is_part = was.flags.meta_modified || was.flags.data_modified;
            &&& after.snapshot_mode
            &&& after.home == storage.home
            &&& after.counts == storage.counts
            &&& task.flags.meta_modified_during_snapshot == (
            was.flags.meta_modified_during_snapshot || category is Meta)
            &&& task.flags.data_modified_during_snapshot == (
            was.flags.data_modified_during_snapshot || category is Data)
            &&& task.flags.meta_modified == was.flags.meta_modified
            &&& task.flags.data_modified == was.flags.data_modified
            &&& task.flags.meta_restored == was.flags.meta_restored
            &&& task.flags.data_restored == was.flags.data_restored
            &&& task.flags.new_task == was.flags.new_task
            &&& task.meta == was.meta
            &&& task.data == was.data
            &&& task.transient == was.transient
            &&& forall|other: u32| #[trigger]
                after.tasks.contains_key(other) == storage.tasks.contains_key(other)
            &&& forall|other: u32|
                other != id ==> #[trigger] after.tasks[other] == storage.tasks[other]
            &&& !is_first ==> after.snapshots == storage.snapshots
            &&& is_first ==> after.snapshots.contains_key(id)
            &&& is_first && !is_part ==> after.snapshots[id] is None
            &&& is_first && is_part ==> {
                let copy = after.snapshots[id]->0;
                &&& after.snapshots[id] is Some
                &&& copy.meta == was.meta
                &&& copy.data == was.data
                &&& copy.transient.len() == 0
                &&& copy.flags.meta_modified == was.flags.meta_modified
                &&& copy.flags.data_modified == was.flags.data_modified
                &&& copy.flags.new_task == was.flags.new_task
                &&& !copy.flags.meta_restored && !copy.flags.data_restored
                &&& !copy.flags.meta_modified_during_snapshot
                &&& !copy.flags.data_modified_during_snapshot
            }
            &&& forall|other: u32|
                #![trigger after.snapshots.contains_key(other)]
                #![trigger after.snapshots[other]]
                other != id ==> after.snapshots.contains_key(other)
                    == storage.snapshots.contains_key(other) && after.snapshots[other]
                    == storage.snapshots[other]
        }),
{
}

/// Starting a snapshot changes nothing but that it is being written.
pub proof fn law_starting_changes_the_mode_only(storage: StorageView)
    ensures
        ({
            let after = storage.started();
            &&& after.snapshot_mode
            &&& after.counts == storage.counts
            &&& after.snapshots == storage.snapshots
            &&& after.tasks == storage.tasks
            &&& after.home == storage.home
        }),
{
}

/// A scan sets all counts to zero, and takes the copies of the modified tasks in the shards in which
/// one was counted, leaving note of them. It changes no task.
pub proof fn law_scanning_takes_copies_and_resets_counts(storage: StorageView)
    requires
        storage.valid(),
    ensures
        ({
            let after = storage.scanned();
            &&& after.snapshot_mode == storage.snapshot_mode
            &&& after.tasks == storage.tasks
            &&& after.home == storage.home
            &&& after.counts.len() == storage.counts.len()
            &&& forall|shard: int|
                0 <= shard < after.counts.len() ==> #[trigger] after.counts[shard] == 0
            &&& forall|id: u32| #[trigger]
                after.snapshots.contains_key(id) == storage.snapshots.contains_key(id)
            &&& forall|id: u32|
                storage.snapshots.contains_key(id) ==> #[trigger] after.snapshots[id] == if {
                    &&& storage.tasks.contains_key(id)
                    &&& storage.tasks[id].flags.meta_modified
                        || storage.tasks[id].flags.data_modified
                    &&& storage.counts[(storage.home)(id)] > 0
                } {
                    None
                } else {
                    storage.snapshots[id]
                }
        }),
{
    assert forall|id: u32| 0 <= #[trigger] (storage.home)(id) < storage.counts.len() by {}
}

/// A scan finds a copy of a task exactly if the task is modified, a modified task is counted in its
/// shard, and a copy is kept of it; and what it finds is that copy, with all that it holds. It
/// finds a task exactly if it is modified, one is counted in its shard, and no note is kept of it.
/// Each is found once, in the shard of the task; the shards are in their order, and those in which
/// nothing is found are left out.
pub proof fn law_scan_finds_what_is_modified(
    storage: StorageView,
    found: Seq<ShardView>,
    shards: Seq<int>,
)
    requires
        crate::model::found_in_shards(found, shards, storage),
    ensures
        found.len() == shards.len(),
        forall|i: int, j: int| 0 <= i < j < shards.len() ==> shards[i] < shards[j],
        forall|i: int|
            0 <= i < found.len() ==> 0 <= #[trigger] shards[i] < storage.counts.len() && (
            found[i].direct.len() > 0 || found[i].modified.len() > 0),
        forall|i: int, j: int|
            0 <= i < found.len() && 0 <= j < found[i].direct.len() ==> {
                let (id, copy) = #[trigger] found[i].direct[j];
                let kept = storage.snapshots[id]->0;
                &&& (storage.home)(id) == shards[i]
                &&& storage.counts[shards[i]] > 0
                &&& storage.tasks.contains_key(id)
                &&& storage.tasks[id].flags.meta_modified || storage.tasks[id].flags.data_modified
                &&& storage.snapshots.contains_key(id)
                &&& storage.snapshots[id] is Some
                &&& copy.flags == kept.flags
                &&& copy.meta == kept.meta
                &&& copy.data == kept.data
                &&& copy.transient == kept.transient
            },
        forall|i: int, j: int|
            0 <= i < found.len() && 0 <= j < found[i].modified.len() ==> {
                let id = #[trigger] found[i].modified[j];
                &&& (storage.home)(id) == shards[i]
                &&& storage.counts[shards[i]] > 0
                &&& storage.tasks.contains_key(id)
                &&& storage.tasks[id].flags.meta_modified || storage.tasks[id].flags.data_modified
                &&& !storage.snapshots.contains_key(id)
            },
        forall|i: int, j: int, k: int|
            0 <= i < found.len() && 0 <= j < k < found[i].direct.len()
                ==> (#[trigger] found[i].direct[j]).0 != (#[trigger] found[i].direct[k]).0,
        forall|i: int, j: int, k: int|
            0 <= i < found.len() && 0 <= j < k < found[i].modified.len()
                ==> #[trigger] found[i].modified[j] != #[trigger] found[i].modified[k],
        forall|id: u32| #[trigger]
            storage.tasks.contains_key(id) && (storage.tasks[id].flags.meta_modified
                || storage.tasks[id].flags.data_modified) && storage.counts[(storage.home)(id)] > 0
                && storage.snapshots.contains_key(id) && storage.snapshots[id] is Some
                ==> exists|i: int, j: int|
                0 <= i < found.len() && 0 <= j < found[i].direct.len()
                    && (#[trigger] found[i].direct[j]).0 == id,
        forall|id: u32| #[trigger]
            storage.tasks.contains_key(id) && (storage.tasks[id].flags.meta_modified
                || storage.tasks[id].flags.data_modified) && storage.counts[(storage.home)(id)] > 0
                && !storage.snapshots.contains_key(id) ==> exists|i: int, j: int|
                0 <= i < found.len() && 0 <= j < found[i].modified.len()
                    && #[trigger] found[i].modified[j] == id,
{
    assert forall|i: int, j: int| 0 <= i < found.len() && 0 <= j < found[i].direct.len() implies {
        let (id, copy) = #[trigger] found[i].direct[j];
        &&& (storage.home)(id) == shards[i]
        &&& storage.hands_out_copy(id)
        &&& storage.snapshots[id] == Some(copy)
    } by {
        assert(found[i].found_in(storage, shards[i]));
    }
    assert forall|i: int, j: int| 0 <= i < found.len() && 0 <= j < found[i].modified.len() implies {
        let id = #[trigger] found[i].modified[j];
        &&& (storage.home)(id) == shards[i]
        &&& storage.hands_out_task(id)
    } by {
        assert(found[i].found_in(storage, shards[i]));
        assert(found[i].modified.contains(found[i].modified[j]));
    }
    assert forall|i: int, j: int, k: int|
        0 <= i < found.len() && 0 <= j < k < found[i].direct.len() implies (
    #[trigger] found[i].direct[j]).0 != (#[trigger] found[i].direct[k]).0 by {
        assert(found[i].found_in(storage, shards[i]));
    }
    assert forall|i: int, j: int, k: int|
        0 <= i < found.len() && 0 <= j < k < found[i].modified.len() implies
            #[trigger] found[i].modified[j] != #[trigger] found[i].modified[k] by {
        assert(found[i].found_in(storage, shards[i]));
    }
    assert forall|id: u32| #[trigger]
        storage.tasks.contains_key(id) && (storage.tasks[id].flags.meta_modified
            || storage.tasks[id].flags.data_modified) && storage.counts[(storage.home)(id)] > 0
            && storage.snapshots.contains_key(id) && storage.snapshots[id] is Some implies exists|
        i: int,
        j: int,
    |
        0 <= i < found.len() && 0 <= j < found[i].direct.len()
            && (#[trigger] found[i].direct[j]).0 == id by {
        assert(storage.hands_out_copy(id));
        let i = choose|i: int| 0 <= i < shards.len() && shards[i] == (storage.home)(id);
        assert(found[i].found_in(storage, shards[i]));
        let j = choose|j: int| 0 <= j < found[i].direct.len() && #[trigger] found[i].direct[j].0
            == id;
        assert(found[i].direct[j].0 == id);
    }
    assert forall|id: u32| #[trigger]
        storage.tasks.contains_key(id) && (storage.tasks[id].flags.meta_modified
            || storage.tasks[id].flags.data_modified) && storage.counts[(storage.home)(id)] > 0
            && !storage.snapshots.contains_key(id) implies exists|i: int, j: int|
        0 <= i < found.len() && 0 <= j < found[i].modified.len()
            && #[trigger] found[i].modified[j] == id by {
        assert(storage.hands_out_task(id));
        let i = choose|i: int| 0 <= i < shards.len() && shards[i] == (storage.home)(id);
        assert(found[i].found_in(storage, shards[i]));
        assert(found[i].modified.contains(id));
        let j = choose|j: int| 0 <= j < found[i].modified.len() && found[i].modified[j] == id;
        assert(found[i].modified[j] == id);
    }
}

/// What is known of shards, of copies and of a copy is all that they hold, in its order.
pub proof fn law_shards_are_known_in_their_order<'l, P>(
    shards: Seq<SnapshotShard<'l, P>>,
    copies: Seq<(TaskId, Box<TaskStorage>)>,
    copy: Option<Box<TaskStorage>>,
)
    ensures
        crate::snapshot::shards_view(shards).len() == shards.len(),
        forall|i: int|
            0 <= i < shards.len() ==> #[trigger] crate::snapshot::shards_view(shards)[i]
                == shards[i]@,
        crate::snapshot::copies_view(copies).len() == copies.len(),
        forall|i: int|
            0 <= i < copies.len() ==> #[trigger] crate::snapshot::copies_view(copies)[i] == (
                copies[i].0.id,
                (*copies[i].1)@,
            ),
        crate::storage::copy_view(copy) == match copy {
            Some(task) => Some((*task)@),
            None => None,
        },
{
}

/// A task can be encoded if it is there and, if it was modified during the snapshot, note is kept of
/// it.
pub proof fn law_tasks_can_be_encoded(storage: StorageView, shard: ShardView, id: u32)
    ensures
        storage.is_ready(id) <==> storage.tasks.contains_key(id) && ((
        storage.tasks[id].flags.meta_modified_during_snapshot
            || storage.tasks[id].flags.data_modified_during_snapshot)
            ==> storage.snapshots.contains_key(id)),
        crate::snapshot::is_ready_shard(storage, shard) && shard.modified.contains(id)
            ==> storage.is_ready(id),
        (forall|i: int| 0 <= i < shard.modified.len() ==> storage.is_ready(
            #[trigger] shard.modified[i],
        )) ==> crate::snapshot::is_ready_shard(storage, shard),
{
}

/// Encoding a task that was not modified since the scan leaves it unmodified and not new. One that
/// was modified since is modified for the next snapshot in those categories as well, counted in its
/// shard, and no note is kept of it any more. The fields of the task stay as they are, and nothing
/// else changes.
pub proof fn law_encoding_persists_or_promotes(storage: StorageView, id: u32)
    requires
        storage.valid(),
        storage.tasks.contains_key(id),
    ensures
        ({
            let after = storage.flushed(id);
            let task = after.tasks[id];
            let was = storage.tasks[id];
            let again = was.flags.meta_modified_during_snapshot
                || was.flags.data_modified_during_snapshot;
            &&& storage.encoded(id) == if again {
                storage.snapshots[id]
            } else {
                Some(was)
            }
            &&& after.snapshot_mode == storage.snapshot_mode
            &&& after.home == storage.home
            &&& after.counts.len() == storage.counts.len()
            &&& forall|shard: int|
                0 <= shard < storage.counts.len() ==> #[trigger] after.counts[shard] == if again
                    && shard == (storage.home)(id) {
                    (storage.counts[shard] + 1) % 0x1_0000_0000_0000_0000
                } else {
                    storage.counts[shard] as int
                }
            &&& task.flags.meta_modified == (again && (was.flags.meta_modified
                || was.flags.meta_modified_during_snapshot))
            &&& task.flags.data_modified == (again && (was.flags.data_modified
                || was.flags.data_modified_during_snapshot))
            &&& !task.flags.meta_modified_during_snapshot
            &&& !task.flags.data_modified_during_snapshot
            &&& task.flags.new_task == (again && was.flags.new_task)
            &&& task.flags.meta_restored == was.flags.meta_restored
            &&& task.flags.data_restored == was.flags.data_restored
            &&& task.meta == was.meta
            &&& task.data == was.data
            &&& task.transient == was.transient
            &&& after.snapshots.contains_key(id) == (!again && storage.snapshots.contains_key(id))
            &&& !again ==> after.snapshots == storage.snapshots
            &&& forall|other: u32| #[trigger]
                after.tasks.contains_key(other) == storage.tasks.contains_key(other)
            &&& forall|other: u32|
                other != id ==> #[trigger] after.tasks[other] == storage.tasks[other]
            &&& forall|other: u32|
                #![trigger after.snapshots.contains_key(other)]
                #![trigger after.snapshots[other]]
                other != id ==> after.snapshots.contains_key(other)
                    == storage.snapshots.contains_key(other) && after.snapshots[other]
                    == storage.snapshots[other]
        }),
{
    assert(0 <= (storage.home)(id) < storage.counts.len());
}

/// Ending a snapshot leaves no note of a task. Those of which note was kept are modified in the
/// categories that were modified during the snapshot, and as many as there were any are counted in
/// each shard. The fields of the tasks stay as they are, and nothing else changes.
pub proof fn law_ending_promotes_what_was_noted(storage: StorageView)
    ensures
        ({
            let after = storage.ended();
            &&& !after.snapshot_mode
            &&& after.home == storage.home
            &&& forall|id: u32| !(#[trigger] after.snapshots.contains_key(id))
            &&& forall|id: u32| #[trigger]
                after.tasks.contains_key(id) == storage.tasks.contains_key(id)
            &&& forall|id: u32| #[trigger]
                storage.tasks.contains_key(id) ==> {
                    let task = after.tasks[id];
                    let was = storage.tasks[id];
                    let noted = storage.snapshots.contains_key(id);
                    &&& !noted ==> task.flags == was.flags
                    &&& noted ==> {
                        &&& task.flags.meta_modified == (was.flags.meta_modified
                            || was.flags.meta_modified_during_snapshot)
                        &&& task.flags.data_modified == (was.flags.data_modified
                            || was.flags.data_modified_during_snapshot)
                        &&& !task.flags.meta_modified_during_snapshot
                        &&& !task.flags.data_modified_during_snapshot
                        &&& task.flags.new_task == was.flags.new_task
                        &&& task.flags.meta_restored == was.flags.meta_restored
                        &&& task.flags.data_restored == was.flags.data_restored
                    }
                    &&& task.meta == was.meta
                    &&& task.data == was.data
                    &&& task.transient == was.transient
                }
            &&& after.counts.len() == storage.counts.len()
            &&& forall|shard: int|
                0 <= shard < storage.counts.len() ==> #[trigger] after.counts[shard] == (
                storage.counts[shard] + Set::new(
                    |id: u32|
                        {
                            &&& storage.snapshots.contains_key(id)
                            &&& storage.tasks.contains_key(id)
                            &&& storage.tasks[id].flags.meta_modified_during_snapshot
                                || storage.tasks[id].flags.data_modified_during_snapshot
                            &&& (storage.home)(id) == shard
                        },
                ).len()) % 0x1_0000_0000_0000_0000
        }),
{
    let after = storage.ended();
    assert forall|shard: int| 0 <= shard < storage.counts.len() implies #[trigger] after.counts[shard]
        == (storage.counts[shard] + Set::new(
        |id: u32|
            {
                &&& storage.snapshots.contains_key(id)
                &&& storage.tasks.contains_key(id)
                &&& storage.tasks[id].flags.meta_modified_during_snapshot
                    || storage.tasks[id].flags.data_modified_during_snapshot
                &&& (storage.home)(id) == shard
            },
    ).len()) % 0x1_0000_0000_0000_0000 by {
        assert(storage.promotable(storage.snapshots.dom(), shard) =~= Set::new(
            |id: u32|
                {
                    &&& storage.snapshots.contains_key(id)
                    &&& storage.tasks.contains_key(id)
                    &&& storage.tasks[id].flags.meta_modified_during_snapshot
                        || storage.tasks[id].flags.data_modified_during_snapshot
                    &&& (storage.home)(id) == shard
                },
        ));
    }
}

/// Tasks that are not among the last of a list stay as they are when those are encoded.
proof fn lemma_others_stay(storage: StorageView, ids: Seq<u32>, n: nat, id: u32)
    requires
        n <= ids.len(),
        forall|i: int| ids.len() - n <= i < ids.len() ==> #[trigger] ids[i] != id,
    ensures
        ({
            let after = storage.flushed_last(ids, n);
            &&& after.tasks.contains_key(id) == storage.tasks.contains_key(id)
            &&& after.tasks[id] == storage.tasks[id]
            &&& after.snapshots.contains_key(id) == storage.snapshots.contains_key(id)
            &&& after.snapshots[id] == storage.snapshots[id]
        }),
    decreases n,
{
    if n > 0 {
        lemma_others_stay(storage, ids, (n - 1) as nat, id);
        assert(ids[ids.len() - n] != id);
    }
}

/// The visits of a shard are, in this order: of the copies that it holds, from the last one on, and
/// of what they hold; and of the tasks that it lists, from the last one on, and of what the storage
/// held of each before the first visit: the task itself, or what was noted of it if it was modified
/// since the scan.
///
/// Where there is something to be encoded, the item is the very one that the function returned when
/// it was called with that, and with the scratch buffer as the visit before it left it.
pub proof fn law_visits_are_calls_of_the_function<P>(
    visits: Seq<Visit>,
    process: P,
    storage: StorageView,
    shard: ShardView,
    buffer: Seq<u8>,
    i: int,
) where P: Fn(TaskId, &TaskStorage, TurboBincodeBuffer) -> (SnapshotItem, TurboBincodeBuffer)
    requires
        crate::snapshot::are_visits(visits, process, storage, shard, buffer),
        shard.modified.no_duplicates(),
        0 <= i < visits.len(),
    ensures
        visits.len() <= shard.direct.len() + shard.modified.len(),
        i < shard.direct.len() ==> {
            let (id, copy) = shard.direct[shard.direct.len() - 1 - i];
            visits[i].id == id && visits[i].task == Some(copy)
        },
        i >= shard.direct.len() ==> {
            let id = shard.modified[shard.modified.len() - 1 - (i - shard.direct.len())];
            let task = storage.tasks[id];
            &&& visits[i].id == id
            &&& visits[i].task == if task.flags.meta_modified_during_snapshot
                || task.flags.data_modified_during_snapshot {
                storage.snapshots[id]
            } else {
                Some(task)
            }
        },
        visits[i].task is Some ==> visits[i].item is Some && exists|
            held: TaskStorage,
            given: TurboBincodeBuffer,
            left: TurboBincodeBuffer,
        |
            #[trigger] call_ensures(
                process,
                (TaskId { id: visits[i].id }, &held, given),
                (visits[i].item->0, left),
            ) && held@ == visits[i].task->0 && given@ == visits[i].before && left@
                == visits[i].after,
        visits[i].task is None ==> visits[i].item is None && visits[i].after == visits[i].before,
        visits[i].before == if i == 0 {
            buffer
        } else {
            visits[i - 1].after
        },
{
    reveal(crate::snapshot::hand_on_buffer);
    if i >= shard.direct.len() {
        let n = (i - shard.direct.len()) as nat;
        let id = shard.modified[shard.modified.len() - 1 - n];
        lemma_others_stay(storage, shard.modified, n, id);
    }
}

/// The visits of copies are of the last of them, from the end on, and of what they hold. The item is
/// the very one that the function returned when it was called with the copy, and with the scratch
/// buffer as the visit before it left it.
pub proof fn law_visits_of_copies_are_calls_of_the_function<P>(
    visits: Seq<Visit>,
    process: P,
    copies: Seq<(u32, TaskView)>,
    buffer: Seq<u8>,
    i: int,
) where P: Fn(TaskId, &TaskStorage, TurboBincodeBuffer) -> (SnapshotItem, TurboBincodeBuffer)
    requires
        crate::snapshot::are_visits_of_copies(visits, process, copies, buffer),
        0 <= i < visits.len(),
    ensures
        visits.len() <= copies.len(),
        visits[i].id == copies[copies.len() - 1 - i].0,
        visits[i].task == Some(copies[copies.len() - 1 - i].1),
        visits[i].item is Some,
        exists|held: TaskStorage, given: TurboBincodeBuffer, left: TurboBincodeBuffer|
            #[trigger] call_ensures(
                process,
                (TaskId { id: visits[i].id }, &held, given),
                (visits[i].item->0, left),
            ) && held@ == copies[copies.len() - 1 - i].1 && given@ == visits[i].before && left@
                == visits[i].after,
        visits[i].before == if i == 0 {
            buffer
        } else {
            visits[i - 1].after
        },
{
    reveal(crate::snapshot::hand_on_buffer);
}

/// Where the function writes the modified fields of a task as they are, every item that comes of a
/// visit holds the fields of what is visited, byte for byte.
pub proof fn law_items_hold_the_fields_of_what_is_visited<P>(
    visits: Seq<Visit>,
    process: P,
    storage: StorageView,
    shard: ShardView,
    buffer: Seq<u8>,
    i: int,
) where P: Fn(TaskId, &TaskStorage, TurboBincodeBuffer) -> (SnapshotItem, TurboBincodeBuffer)
    requires
        crate::snapshot::are_visits(visits, process, storage, shard, buffer),
        shard.modified.no_duplicates(),
        0 <= i < visits.len(),
        forall|
            id: TaskId,
            held: &TaskStorage,
            given: TurboBincodeBuffer,
            item: SnapshotItem,
            left: TurboBincodeBuffer,
        |
            #[trigger] call_ensures(process, (id, held, given), (item, left)) ==> {
                &&& item.task_id == id
                &&& item.meta is Some <==> held.flags.meta_modified
                &&& item.data is Some <==> held.flags.data_modified
                &&& held.flags.meta_modified ==> item.meta->0@ == held.meta@
                &&& held.flags.data_modified ==> item.data->0@ == held.data@
            },
        visits[i].task is Some,
    ensures
        ({
            let item = visits[i].item->0;
            let task = visits[i].task->0;
            &&& visits[i].item is Some
            &&& item.task_id.id == visits[i].id
            &&& item.meta is Some <==> task.flags.meta_modified
            &&& item.data is Some <==> task.flags.data_modified
            &&& task.flags.meta_modified ==> item.meta->0@ == task.meta
            &&& task.flags.data_modified ==> item.data->0@ == task.data
        }),
{
    law_visits_are_calls_of_the_function(visits, process, storage, shard, buffer, i);
    let item = visits[i].item->0;
    let (held, given, left) = choose|
        held: TaskStorage,
        given: TurboBincodeBuffer,
        left: TurboBincodeBuffer,
    |
        #[trigger] call_ensures(
            process,
            (TaskId { id: visits[i].id }, &held, given),
            (item, left),
        ) && held@ == visits[i].task->0 && given@ == visits[i].before && left@ == visits[i].after;
    assert(call_ensures(process, (TaskId { id: visits[i].id }, &held, given), (item, left)));
}

/// Visits end with the first item that holds something, which is what they yield, or else when
/// nothing is left to be visited.
pub proof fn law_visits_yield_the_first_item_that_holds_something(
    visits: Seq<Visit>,
    shard: ShardView,
    item: Option<SnapshotItem>,
)
    ensures
        crate::snapshot::yields(visits, shard, item) ==> {
            &&& item matches Some(item) ==> visits.len() > 0 && visits.last().item == Some(item)
                && (item.meta is Some || item.data is Some)
            &&& item is None ==> visits.len() == shard.direct.len() + shard.modified.len()
            &&& forall|i: int|
                0 <= i < visits.len() && (i < visits.len() - 1 || item is None) && (
                #[trigger] visits[i]).item is Some ==> visits[i].item->0.meta is None
                    && visits[i].item->0.data is None
        },
{
}

/// After some visits, the copies and tasks visited are gone from the end of their lists, the copies
/// first, and the rest is left in its order. The scratch buffer holds what the last visit left.
pub proof fn law_visits_leave_the_rest(
    shard: ShardView,
    n: nat,
    visits: Seq<Visit>,
    buffer: Seq<u8>,
)
    requires
        n <= shard.direct.len() + shard.modified.len(),
    ensures
        ({
            let after = crate::snapshot::shard_after(shard, n);
            &&& n <= shard.direct.len() ==> after.direct.len() == shard.direct.len() - n
                && after.modified == shard.modified
            &&& n > shard.direct.len() ==> after.direct.len() == 0 && after.modified.len()
                == shard.direct.len() + shard.modified.len() - n
            &&& forall|i: int|
                0 <= i < after.direct.len() ==> #[trigger] after.direct[i] == shard.direct[i]
            &&& forall|i: int|
                0 <= i < after.modified.len() ==> #[trigger] after.modified[i] == shard.modified[i]
        }),
        visits.len() == 0 ==> crate::snapshot::buffer_after(visits, buffer) == buffer,
        visits.len() > 0 ==> crate::snapshot::buffer_after(visits, buffer) == visits[visits.len()
            - 1].after,
{
    assert(shard.modified.take(shard.modified.len() as int) =~= shard.modified);
}

/// The tasks among the last of a list that were modified during the snapshot and belong to a shard.
spec fn again_among_last(storage: StorageView, ids: Seq<u32>, n: nat, shard: int) -> Set<u32> {
    Set::new(
        |id: u32|
            {
                &&& exists|k: int| ids.len() - n <= k < ids.len() && #[trigger] ids[k] == id
                &&& storage.tasks[id].flags.meta_modified_during_snapshot
                    || storage.tasks[id].flags.data_modified_during_snapshot
                &&& (storage.home)(id) == shard
            },
    )
}

/// Encoding the last tasks of a list counts those that were modified during the snapshot.
proof fn lemma_encoding_counts(storage: StorageView, ids: Seq<u32>, n: nat)
    requires
        storage.valid(),
        ids.no_duplicates(),
        n <= ids.len(),
        forall|i: int|
            ids.len() - n <= i < ids.len() ==> storage.tasks.contains_key(#[trigger] ids[i]),
    ensures
        ({
            let after = storage.flushed_last(ids, n);
            &&& after.valid()
            &&& after.snapshot_mode == storage.snapshot_mode
            &&& after.home == storage.home
            &&& after.counts.len() == storage.counts.len()
            &&& forall|id: u32| #[trigger]
                after.tasks.contains_key(id) == storage.tasks.contains_key(id)
            &&& forall|shard: int|
                0 <= shard < storage.counts.len() ==> #[trigger] after.counts[shard] == (
                storage.counts[shard] + again_among_last(storage, ids, n, shard).len())
                    % 0x1_0000_0000_0000_0000
        }),
    decreases n,
{
    let after = storage.flushed_last(ids, n);
    if n == 0 {
        assert forall|shard: int| 0 <= shard < storage.counts.len() implies
            #[trigger] after.counts[shard] == (storage.counts[shard] + again_among_last(
            storage,
            ids,
            n,
            shard,
        ).len()) % 0x1_0000_0000_0000_0000 by {
            assert(again_among_last(storage, ids, n, shard) =~= Set::empty());
        }
    } else {
        let m = (n - 1) as nat;
        let before = storage.flushed_last(ids, m);
        let last = ids[ids.len() - n];
        lemma_encoding_counts(storage, ids, m);
        lemma_others_stay(storage, ids, m, last);
        law_encoding_persists_or_promotes(before, last);
        assert forall|shard: int| 0 <= shard < storage.counts.len() implies
            #[trigger] after.counts[shard] == (storage.counts[shard] + again_among_last(
            storage,
            ids,
            n,
            shard,
        ).len()) % 0x1_0000_0000_0000_0000 by {
            let some = again_among_last(storage, ids, m, shard);
            let more = again_among_last(storage, ids, n, shard);
            crate::laws::lemma_ids_are_finite(some);
            assert(before.counts[shard] == (storage.counts[shard] + some.len())
                % 0x1_0000_0000_0000_0000);
            let again = storage.tasks[last].flags.meta_modified_during_snapshot
                || storage.tasks[last].flags.data_modified_during_snapshot;
            if again && shard == (storage.home)(last) {
                assert(!some.contains(last));
                assert(more =~= some.insert(last));
                let a = storage.counts[shard] + some.len();
                assert((a % 0x1_0000_0000_0000_0000 + 1) % 0x1_0000_0000_0000_0000 == (a + 1)
                    % 0x1_0000_0000_0000_0000) by (nonlinear_arith);
            } else {
                assert(more =~= some);
            }
        }
    }
}

/// Visits of copies leave the storage as it is.
pub proof fn law_visits_of_copies_leave_the_storage(
    storage: StorageView,
    shard: ShardView,
    n: nat,
)
    requires
        n <= shard.direct.len(),
    ensures
        crate::snapshot::storage_after(storage, shard, n) == storage,
{
}

/// After some visits of a shard, the tasks visited are persisted, or modified for the next snapshot
/// if they were modified since the scan, counted then, and not noted any more. All else is as it
/// was.
pub proof fn law_visits_persist_or_promote(storage: StorageView, shard: ShardView, n: nat)
    requires
        storage.valid(),
        shard.modified.no_duplicates(),
        n <= shard.direct.len() + shard.modified.len(),
        forall|i: int|
            0 <= i < shard.modified.len() && shard.direct.len() + shard.modified.len() - n <= i
                ==> storage.tasks.contains_key(#[trigger] shard.modified[i]),
    ensures
        ({
            let after = crate::snapshot::storage_after(storage, shard, n);
            let limit = shard.modified.len() + shard.direct.len() - n;
            &&& after.snapshot_mode == storage.snapshot_mode
            &&& after.home == storage.home
            &&& after.counts.len() == storage.counts.len()
            &&& forall|id: u32| #[trigger]
                after.tasks.contains_key(id) == storage.tasks.contains_key(id)
            &&& forall|id: u32|
                (forall|i: int|
                    0 <= i < shard.modified.len() && limit <= i ==> #[trigger] shard.modified[i]
                        != id) ==> {
                    &&& #[trigger] after.tasks[id] == storage.tasks[id]
                    &&& after.snapshots.contains_key(id) == storage.snapshots.contains_key(id)
                    &&& after.snapshots[id] == storage.snapshots[id]
                }
            &&& forall|i: int|
                0 <= i < shard.modified.len() && limit <= i ==> {
                    let id = #[trigger] shard.modified[i];
                    let task = after.tasks[id];
                    let was = storage.tasks[id];
                    let again = was.flags.meta_modified_during_snapshot
                        || was.flags.data_modified_during_snapshot;
                    &&& task.flags.meta_modified == (again && (was.flags.meta_modified
                        || was.flags.meta_modified_during_snapshot))
                    &&& task.flags.data_modified == (again && (was.flags.data_modified
                        || was.flags.data_modified_during_snapshot))
                    &&& !task.flags.meta_modified_during_snapshot
                    &&& !task.flags.data_modified_during_snapshot
                    &&& task.flags.new_task == (again && was.flags.new_task)
                    &&& task.flags.meta_restored == was.flags.meta_restored
                    &&& task.flags.data_restored == was.flags.data_restored
                    &&& task.meta == was.meta
                    &&& task.data == was.data
                    &&& task.transient == was.transient
                    &&& after.snapshots.contains_key(id) == (!again
                        && storage.snapshots.contains_key(id))
                }
            &&& forall|home: int|
                0 <= home < storage.counts.len() ==> #[trigger] after.counts[home] == (
                storage.counts[home] + Set::new(
                    |id: u32|
                        {
                            &&& exists|i: int|
                                0 <= i < shard.modified.len() && limit <= i
                                    && #[trigger] shard.modified[i] == id
                            &&& storage.tasks[id].flags.meta_modified_during_snapshot
                                || storage.tasks[id].flags.data_modified_during_snapshot
                            &&& (storage.home)(id) == home
                        },
                ).len()) % 0x1_0000_0000_0000_0000
        }),
{
    let ids = shard.modified;
    let m: nat = if n <= shard.direct.len() {
        0
    } else {
        (n - shard.direct.len()) as nat
    };
    let limit = shard.modified.len() + shard.direct.len() - n;
    let after = storage.flushed_last(ids, m);
    assert(crate::snapshot::storage_after(storage, shard, n) == after);
    lemma_encoding_counts(storage, ids, m);
    assert forall|id: u32|
        (forall|i: int| 0 <= i < ids.len() && limit <= i ==> #[trigger] ids[i] != id) implies {
        &&& #[trigger] after.tasks[id] == storage.tasks[id]
        &&& after.snapshots.contains_key(id) == storage.snapshots.contains_key(id)
        &&& after.snapshots[id] == storage.snapshots[id]
    } by {
        lemma_others_stay(storage, ids, m, id);
    }
    assert forall|i: int| 0 <= i < ids.len() && limit <= i implies {
        let id = #[trigger] ids[i];
        let once = storage.flushed(id);
        &&& after.tasks[id] == once.tasks[id]
        &&& after.snapshots.contains_key(id) == once.snapshots.contains_key(id)
    } by {
        lemma_visited_once(storage, ids, m, i);
    }
    assert forall|i: int| 0 <= i < ids.len() && limit <= i implies {
        let id = #[trigger] ids[i];
        let task = after.tasks[id];
        let was = storage.tasks[id];
        let again = was.flags.meta_modified_during_snapshot
            || was.flags.data_modified_during_snapshot;
        &&& task.flags.meta_modified == (again && (was.flags.meta_modified
            || was.flags.meta_modified_during_snapshot))
        &&& task.flags.data_modified == (again && (was.flags.data_modified
            || was.flags.data_modified_during_snapshot))
        &&& !task.flags.meta_modified_during_snapshot
        &&& !task.flags.data_modified_during_snapshot
        &&& task.flags.new_task == (again && was.flags.new_task)
        &&& task.flags.meta_restored == was.flags.meta_restored
        &&& task.flags.data_restored == was.flags.data_restored
        &&& task.meta == was.meta
        &&& task.data == was.data
        &&& task.transient == was.transient
        &&& after.snapshots.contains_key(id) == (!again && storage.snapshots.contains_key(id))
    } by {
        law_encoding_persists_or_promotes(storage, ids[i]);
    }
    assert forall|home: int| 0 <= home < storage.counts.len() implies #[trigger] after.counts[home]
        == (storage.counts[home] + Set::new(
        |id: u32|
            {
                &&& exists|i: int|
                    0 <= i < shard.modified.len() && limit <= i && #[trigger] shard.modified[i]
                        == id
                &&& storage.tasks[id].flags.meta_modified_during_snapshot
                    || storage.tasks[id].flags.data_modified_during_snapshot
                &&& (storage.home)(id) == home
            },
    ).len()) % 0x1_0000_0000_0000_0000 by {
        assert(again_among_last(storage, ids, m, home) =~= Set::new(
            |id: u32|
                {
                    &&& exists|i: int|
                        0 <= i < shard.modified.len() && limit <= i && #[trigger] shard.modified[i]
                            == id
                    &&& storage.tasks[id].flags.meta_modified_during_snapshot
                        || storage.tasks[id].flags.data_modified_during_snapshot
                    &&& (storage.home)(id) == home
                },
        ));
    }
}

/// A task among the last of a list is encoded once when those are.
proof fn lemma_visited_once(storage: StorageView, ids: Seq<u32>, n: nat, i: int)
    requires
        ids.no_duplicates(),
        n <= ids.len(),
        ids.len() - n <= i < ids.len(),
    ensures
        ({
            let after = storage.flushed_last(ids, n);
            let once = storage.flushed(ids[i]);
            &&& after.tasks[ids[i]] == once.tasks[ids[i]]
            &&& after.snapshots.contains_key(ids[i]) == once.snapshots.contains_key(ids[i])
        }),
    decreases n,
{
    let m = (n - 1) as nat;
    if i == ids.len() - n {
        lemma_others_stay(storage, ids, m, ids[i]);
    } else {
        lemma_visited_once(storage, ids, m, i);
        assert(ids[ids.len() - n] != ids[i]);
    }
}

/// A thread that takes its buffer gets the one that it has at hand, or an empty one if it never had
/// one; it cannot if the buffer is in use. The buffer is in use after that, and the other threads
/// are left alone.
pub proof fn law_taking_a_buffer(
    before: Map<nat, ScratchBufferSlot>,
    thread: nat,
    after: Map<nat, ScratchBufferSlot>,
    buffer: Result<TurboBincodeBuffer, ScratchBufferError>,
)
    requires
        crate::scratch::takes_buffer(before, thread, after, buffer),
    ensures
        after.contains_key(thread) && after[thread] is Taken,
        forall|other: nat|
            #![trigger after.contains_key(other)]
            #![trigger after[other]]
            other != thread ==> after.contains_key(other) == before.contains_key(other)
                && after[other] == before[other],
        before.contains_key(thread) && before[thread] is Available ==> buffer is Ok && buffer->Ok_0
            == before[thread]->Available_0,
        !before.contains_key(thread) || before[thread] is Uninit ==> buffer is Ok
            && buffer->Ok_0@.len() == 0,
        before.contains_key(thread) && before[thread] is Taken ==> buffer is Err && buffer->Err_0
            is TakenTwice,
{
}

/// A thread can return a buffer exactly if its buffer is in use. The buffer returned is at hand
/// after that, and the other threads are left alone.
pub proof fn law_returning_a_buffer(
    before: Map<nat, ScratchBufferSlot>,
    thread: nat,
    after: Map<nat, ScratchBufferSlot>,
    buffer: TurboBincodeBuffer,
    accepted: Result<(), ScratchBufferError>,
)
    requires
        crate::scratch::returns_buffer(before, thread, after, buffer, accepted),
    ensures
        after.contains_key(thread) && after[thread] is Available && after[thread]->Available_0
            == buffer,
        forall|other: nat|
            #![trigger after.contains_key(other)]
            #![trigger after[other]]
            other != thread ==> after.contains_key(other) == before.contains_key(other)
                && after[other] == before[other],
        accepted is Ok <==> before.contains_key(thread) && before[thread] is Taken,
        before.contains_key(thread) && before[thread] is Available ==> accepted is Err
            && accepted->Err_0 is ReturnedWhileAvailable,
        !before.contains_key(thread) || before[thread] is Uninit ==> accepted is Err
            && accepted->Err_0 is ReturnedWhileUninit,
{
}

} // verus!
