//! What holds of a storage whatever is done with it.
use crate::category::SpecificTaskDataCategory;
use crate::model::{ShardView, StorageView};
use crate::scratch::{ScratchBufferError, ScratchBufferSlot};
use crate::task::{TaskView, TurboBincodeBuffer};
use vstd::prelude::*;

verus! {

impl StorageView {
    /// The flags of a task and the note kept of it for a snapshot agree:
    /// - note is kept of it exactly if it was modified during the snapshot, and not at all while no
    ///   snapshot is being written;
    /// - if a copy of it is kept, the task is modified, and so is the copy;
    /// - if it is transient, it is never modified.
    pub open spec fn consistent_at(self, id: u32) -> bool {
        &&& self.snapshots.contains_key(id) <==> self.is_modified_during_snapshot(id)
        &&& self.snapshots.contains_key(id) ==> self.snapshot_mode
        &&& self.snapshots.contains_key(id) && self.snapshots[id] is Some ==> self.is_modified(id)
            && self.snapshots[id]->0.flags.any_modified()
        &&& crate::task::is_transient_id(id) ==> !self.is_modified(id)
            && !self.is_modified_during_snapshot(id)
    }

    /// The flags of all tasks and the notes kept of them for a snapshot agree.
    pub open spec fn consistent(self) -> bool {
        &&& self.valid()
        &&& forall|id: u32| #[trigger] self.consistent_at(id)
    }

    /// No modified task is out of sight: it is among those still to be encoded, or note is kept of
    /// it, or it is counted in its shard.
    pub open spec fn covered(self, pending: Set<u32>) -> bool {
        forall|id: u32| #[trigger]
            self.is_modified(id) ==> pending.contains(id) || self.snapshots.contains_key(id)
                || self.counts[(self.home)(id)] > 0
    }

    /// Every modified task is counted in its shard.
    pub open spec fn all_counted(self) -> bool {
        forall|id: u32| #[trigger] self.is_modified(id) ==> self.counts[(self.home)(id)] > 0
    }

    /// The modified tasks of a shard.
    pub open spec fn modified_in(self, shard: int) -> Set<u32> {
        Set::new(|id: u32| self.is_modified(id) && (self.home)(id) == shard)
    }

    /// The count of every shard is the number of modified tasks in it.
    pub open spec fn exactly_counted(self) -> bool {
        forall|shard: int|
            0 <= shard < self.counts.len() ==> #[trigger] self.counts[shard] == self.modified_in(
                shard,
            ).len()
    }

    /// Of every modified task of which note is kept, there is a copy.
    pub open spec fn all_copied(self) -> bool {
        forall|id: u32| #[trigger]
            self.is_modified(id) && self.snapshots.contains_key(id) ==> self.snapshots[id] is Some
    }

    /// What a snapshot is to persist of some tasks is still at hand as it was when the snapshot
    /// started: in the task itself as long as that was not modified since, in the copy of it
    /// afterwards.
    pub open spec fn keeps(self, start: StorageView, pending: Set<u32>) -> bool {
        forall|id: u32| #[trigger]
            pending.contains(id) ==> {
                &&& self.is_modified(id)
                &&& self.is_ready(id)
                &&& self.encoded(id) is Some
                &&& self.encoded(id)->0.meta == start.tasks[id].meta
                &&& self.encoded(id)->0.data == start.tasks[id].data
                &&& self.encoded(id)->0.flags.meta_modified == start.tasks[id].flags.meta_modified
                &&& self.encoded(id)->0.flags.data_modified == start.tasks[id].flags.data_modified
                &&& self.encoded(id)->0.flags.new_task == start.tasks[id].flags.new_task
            }
    }
}

/// A storage without tasks, in which no snapshot is being written, is consistent.
pub proof fn law_empty_storage_is_consistent(storage: StorageView)
    requires
        storage.valid(),
        !storage.snapshot_mode,
        storage.snapshots.is_empty(),
        storage.tasks.is_empty(),
    ensures
        storage.consistent(),
        storage.covered(Set::empty()),
{
}

/// What is written to a task is read back, however often access is given to tasks after that, and
/// the other tasks are left alone.
pub proof fn law_written_task_is_read_back(
    storage: StorageView,
    id: u32,
    task: TaskView,
    other: u32,
)
    ensures
        storage.with_task(id, task).tasks[id] == task,
        storage.with_task(id, task).accessed(other).tasks[id] == task,
        other != id && storage.tasks.contains_key(other) ==> storage.with_task(
            id,
            task,
        ).tasks[other] == storage.tasks[other],
{
}

/// It does not matter in what order access is given to two tasks.
pub proof fn law_access_in_any_order(storage: StorageView, id1: u32, id2: u32)
    ensures
        storage.accessed(id1).accessed(id2) == storage.accessed(id2).accessed(id1),
{
    assert(storage.accessed(id1).accessed(id2) =~= storage.accessed(id2).accessed(id1));
}

/// Giving access to a task, and marking one as new, keeps a storage consistent.
pub proof fn law_access_keeps_consistency(storage: StorageView, id: u32)
    requires
        storage.consistent(),
    ensures
        storage.accessed(id).consistent(),
        storage.initialized(id).consistent(),
{
    assert forall|other: u32| #[trigger] storage.accessed(id).consistent_at(other) by {
        assert(storage.consistent_at(other));
    }
    assert forall|other: u32| #[trigger] storage.initialized(id).consistent_at(other) by {
        assert(storage.consistent_at(other));
    }
}

/// Keeping track of a modification keeps a storage consistent.
pub proof fn law_tracking_keeps_consistency(
    storage: StorageView,
    id: u32,
    category: SpecificTaskDataCategory,
)
    requires
        storage.consistent(),
        storage.tasks.contains_key(id),
        !crate::task::is_transient_id(id),
    ensures
        storage.touched(id, category).consistent(),
{
    let touched = storage.touched(id, category);
    assert(touched.valid());
    assert forall|other: u32| #[trigger] touched.consistent_at(other) by {
        assert(storage.consistent_at(other));
    }
}

/// Starting a snapshot, scanning the shards for it, ending it, and dropping all tasks keep a
/// storage consistent.
pub proof fn law_snapshots_keep_consistency(storage: StorageView)
    requires
        storage.consistent(),
    ensures
        storage.started().consistent(),
        storage.scanned().consistent(),
        storage.ended().consistent(),
        storage.emptied().consistent(),
{
    assert forall|id: u32| #[trigger] storage.started().consistent_at(id) by {
        assert(storage.consistent_at(id));
    }
    assert forall|id: u32| #[trigger] storage.scanned().consistent_at(id) by {
        assert(storage.consistent_at(id));
    }
    assert forall|id: u32| #[trigger] storage.ended().consistent_at(id) by {
        assert(storage.consistent_at(id));
    }
}

/// Encoding a task keeps a storage consistent.
pub proof fn law_encoding_keeps_consistency(storage: StorageView, id: u32)
    requires
        storage.consistent(),
        storage.tasks.contains_key(id),
    ensures
        storage.flushed(id).consistent(),
{
    let flushed = storage.flushed(id);
    assert(flushed.valid());
    assert forall|other: u32| #[trigger] flushed.consistent_at(other) by {
        assert(storage.consistent_at(other));
        assert(storage.consistent_at(id));
    }
}

/// Writing to the fields of a task keeps a storage consistent, and leaves no modified task out of
/// sight.
pub proof fn law_writing_keeps_flags_in_order(
    storage: StorageView,
    id: u32,
    task: TaskView,
    pending: Set<u32>,
)
    requires
        storage.tasks.contains_key(id),
        task.flags == storage.tasks[id].flags,
    ensures
        storage.consistent() ==> storage.with_task(id, task).consistent(),
        storage.covered(pending) ==> storage.with_task(id, task).covered(pending),
{
    let written = storage.with_task(id, task);
    if storage.consistent() {
        assert(written.valid());
        assert forall|other: u32| #[trigger] written.consistent_at(other) by {
            assert(storage.consistent_at(other));
        }
    }
    assert forall|other: u32| #[trigger] written.is_modified(other) implies storage.is_modified(
        other,
    ) by {}
}

/// In a consistent storage every task can be encoded.
pub proof fn law_every_task_is_ready(storage: StorageView, id: u32)
    requires
        storage.consistent(),
        storage.tasks.contains_key(id),
    ensures
        storage.is_ready(id),
{
    assert(storage.consistent_at(id));
}

/// Giving access to a task, marking one as new, and starting a snapshot leave no modified task out
/// of sight.
pub proof fn law_access_keeps_tasks_in_sight(storage: StorageView, id: u32, pending: Set<u32>)
    requires
        storage.covered(pending),
    ensures
        storage.accessed(id).covered(pending),
        storage.initialized(id).covered(pending),
        storage.started().covered(pending),
{
    let accessed = storage.accessed(id);
    let initialized = storage.initialized(id);
    let started = storage.started();
    assert forall|other: u32| #[trigger] accessed.is_modified(other) implies storage.is_modified(
        other,
    ) by {}
    assert forall|other: u32| #[trigger] initialized.is_modified(
        other,
    ) implies storage.is_modified(other) by {}
    assert forall|other: u32| #[trigger] started.is_modified(other) implies storage.is_modified(
        other,
    ) by {}
}

/// Keeping track of a modification leaves no modified task out of sight, unless the count of the
/// shard is full.
pub proof fn law_tracking_keeps_tasks_in_sight(
    storage: StorageView,
    id: u32,
    category: SpecificTaskDataCategory,
    pending: Set<u32>,
)
    requires
        storage.valid(),
        storage.covered(pending),
        storage.tasks.contains_key(id),
        storage.counts[(storage.home)(id)] < u64::MAX,
    ensures
        storage.touched(id, category).covered(pending),
{
    let touched = storage.touched(id, category);
    assert(0 <= (storage.home)(id) < storage.counts.len());
    assert forall|other: u32| #[trigger] touched.is_modified(other) implies pending.contains(other)
        || touched.snapshots.contains_key(other) || touched.counts[(touched.home)(other)] > 0 by {
        assert(0 <= (storage.home)(other) < storage.counts.len());
        if other != id || storage.is_modified(id) {
            assert(storage.is_modified(other));
        }
    }
}

/// Scanning the shards leaves no modified task out of sight, if those that it leaves to be encoded
/// are not lost sight of.
pub proof fn law_scanning_keeps_tasks_in_sight(storage: StorageView, pending: Set<u32>)
    requires
        storage.valid(),
        storage.covered(pending),
    ensures
        storage.scanned().covered(
            pending.union(Set::new(|id: u32| storage.hands_out_task(id))),
        ),
{
    let scanned = storage.scanned();
    assert forall|id: u32| #[trigger] scanned.is_modified(id) implies pending.union(
        Set::new(|id: u32| storage.hands_out_task(id)),
    ).contains(id) || scanned.snapshots.contains_key(id) by {
        assert(storage.is_modified(id));
        if !pending.contains(id) && !storage.snapshots.contains_key(id) {
            assert(storage.hands_out_task(id));
        }
    }
}

/// Encoding a task leaves no modified task out of sight, unless the count of the shard is full:
/// it is persisted, or it is counted for the next snapshot.
pub proof fn law_encoding_keeps_tasks_in_sight(storage: StorageView, id: u32, pending: Set<u32>)
    requires
        storage.valid(),
        storage.covered(pending),
        storage.tasks.contains_key(id),
        storage.counts[(storage.home)(id)] < u64::MAX,
    ensures
        storage.flushed(id).covered(pending.remove(id)),
{
    let flushed = storage.flushed(id);
    assert(0 <= (storage.home)(id) < storage.counts.len());
    assert forall|other: u32| #[trigger] flushed.is_modified(other) implies pending.remove(
        id,
    ).contains(other) || flushed.snapshots.contains_key(other) || flushed.counts[(flushed.home)(
        other,
    )] > 0 by {
        assert(0 <= (storage.home)(other) < storage.counts.len());
        if other != id {
            assert(storage.is_modified(other));
        }
    }
}

/// Ending a snapshot leaves no modified task out of sight, unless the count of a shard gets full:
/// those of which note was kept are counted for the next snapshot.
pub proof fn law_ending_keeps_tasks_in_sight(storage: StorageView, pending: Set<u32>)
    requires
        storage.consistent(),
        storage.covered(pending),
        forall|shard: int|
            0 <= shard < storage.counts.len() ==> #[trigger] storage.counts[shard]
                + storage.promotable(storage.snapshots.dom(), shard).len() <= u64::MAX,
    ensures
        storage.ended().covered(pending),
{
    let ended = storage.ended();
    assert forall|id: u32| #[trigger] ended.is_modified(id) implies pending.contains(id)
        || ended.counts[(ended.home)(id)] > 0 by {
        let shard = (storage.home)(id);
        assert(0 <= shard < storage.counts.len());
        assert(storage.counts[shard] + storage.promotable(storage.snapshots.dom(), shard).len()
            <= u64::MAX);
        if storage.snapshots.contains_key(id) {
            let promoted = storage.promotable(storage.snapshots.dom(), shard);
            assert(storage.consistent_at(id));
            assert(promoted.contains(id));
            lemma_ids_are_finite(promoted);
            assert(promoted.len() > 0);
        } else {
            assert(storage.is_modified(id));
        }
    }
}

/// There are finitely many identifiers: as many as there are numbers of 32 bits.
pub proof fn lemma_ids_are_finite(ids: Set<u32>)
    ensures
        ids.finite(),
        ids.len() <= u32::MAX + 1,
{
    let all = Set::<u32>::range_inclusive(0, u32::MAX);
    vstd::set_lib::range_set_properties::<u32>(0, u32::MAX);
    assert(ids.subset_of(all));
    vstd::set_lib::lemma_len_subset(ids, all);
}

/// The counts of a storage without tasks are exact if they are zero.
pub proof fn law_empty_storage_is_exactly_counted(storage: StorageView)
    requires
        storage.tasks.is_empty(),
        forall|shard: int|
            0 <= shard < storage.counts.len() ==> #[trigger] storage.counts[shard] == 0,
    ensures
        storage.exactly_counted(),
{
    assert forall|shard: int| 0 <= shard < storage.counts.len() implies #[trigger] storage.counts[shard]
        == storage.modified_in(shard).len() by {
        assert(storage.modified_in(shard) =~= Set::<u32>::empty());
    }
}

/// Giving access to a task, marking one as new, writing to its fields, and, while no snapshot is
/// being written, keeping track of a modification leave exact counts exact: a task counts once,
/// however many of its categories are modified. No count gets full by that.
pub proof fn law_counts_stay_exact(
    storage: StorageView,
    id: u32,
    category: SpecificTaskDataCategory,
    task: TaskView,
)
    requires
        storage.valid(),
        storage.exactly_counted(),
    ensures
        storage.accessed(id).exactly_counted(),
        storage.initialized(id).exactly_counted(),
        storage.tasks.contains_key(id) && task.flags == storage.tasks[id].flags
            ==> storage.with_task(id, task).exactly_counted(),
        storage.tasks.contains_key(id) && !storage.snapshot_mode ==> storage.touched(
            id,
            category,
        ).exactly_counted(),
        storage.tasks.contains_key(id) ==> storage.counts[(storage.home)(id)] < u64::MAX,
{
    lemma_same_modified_tasks(storage, storage.accessed(id));
    lemma_same_modified_tasks(storage, storage.initialized(id));
    if storage.tasks.contains_key(id) {
        let home = (storage.home)(id);
        let counted = storage.modified_in(home);
        assert(0 <= home < storage.counts.len());
        assert(storage.counts[home] == counted.len());
        lemma_ids_are_finite(counted);
        if task.flags == storage.tasks[id].flags {
            lemma_same_modified_tasks(storage, storage.with_task(id, task));
        }
        let touched = storage.touched(id, category);
        if !storage.snapshot_mode {
            if storage.is_modified(id) || storage.tasks[id].flags.is_modified_during_snapshot(
                category,
            ) {
                lemma_same_modified_tasks(storage, touched);
            } else {
                assert forall|shard: int| 0 <= shard < touched.counts.len() implies
                    #[trigger] touched.counts[shard] == touched.modified_in(shard).len() by {
                    assert(storage.counts[shard] == storage.modified_in(shard).len());
                    if shard == home {
                        assert(touched.modified_in(shard) =~= counted.insert(id));
                    } else {
                        assert(touched.modified_in(shard) =~= storage.modified_in(shard));
                    }
                }
            }
        }
    }
}

/// Counts stay exact where the same tasks are modified.
proof fn lemma_same_modified_tasks(before: StorageView, after: StorageView)
    requires
        before.exactly_counted(),
        after.counts == before.counts,
        after.home == before.home,
        forall|id: u32| #[trigger] after.is_modified(id) == before.is_modified(id),
    ensures
        after.exactly_counted(),
{
    assert forall|shard: int| 0 <= shard < after.counts.len() implies #[trigger] after.counts[shard]
        == after.modified_in(shard).len() by {
        assert(before.counts[shard] == before.modified_in(shard).len());
        assert(after.modified_in(shard) =~= before.modified_in(shard));
    }
}

/// While no snapshot is being written and nothing is left to be encoded, every modified task is
/// counted in its shard: no scan skips it, and the next snapshot is known to have something to
/// persist.
pub proof fn law_no_modified_task_is_skipped(storage: StorageView, id: u32)
    requires
        storage.consistent(),
        !storage.snapshot_mode,
        storage.covered(Set::empty()),
        storage.is_modified(id),
    ensures
        storage.all_counted(),
        storage.is_scanned(id),
        exists|shard: int|
            0 <= shard < storage.counts.len() && #[trigger] storage.counts[shard] > 0,
{
    assert(storage.all_counted()) by {
        assert forall|other: u32| #[trigger]
            storage.is_modified(other) implies storage.counts[(storage.home)(other)] > 0 by {
            assert(storage.consistent_at(other));
        }
    }
    assert(0 <= (storage.home)(id) < storage.counts.len());
    assert(storage.counts[(storage.home)(id)] > 0);
}

/// When a snapshot starts, every modified task is counted, and no note of one is kept without a
/// copy.
pub proof fn law_snapshot_starts_complete(storage: StorageView)
    requires
        storage.consistent(),
        !storage.snapshot_mode,
        storage.covered(Set::empty()),
    ensures
        storage.started().all_counted(),
        storage.started().all_copied(),
{
    let started = storage.started();
    assert forall|id: u32| #[trigger] started.is_modified(id) implies storage.is_modified(id)
        && !storage.snapshots.contains_key(id) by {
        assert(storage.consistent_at(id));
    }
}

/// Until the shards are scanned, giving access to tasks and keeping track of modifications leaves
/// every modified task counted, and every note of one with a copy.
pub proof fn law_snapshot_stays_complete(
    storage: StorageView,
    id: u32,
    category: SpecificTaskDataCategory,
)
    requires
        storage.consistent(),
        storage.snapshot_mode,
        storage.all_counted(),
        storage.all_copied(),
    ensures
        storage.accessed(id).all_counted(),
        storage.accessed(id).all_copied(),
        storage.initialized(id).all_counted(),
        storage.initialized(id).all_copied(),
        storage.tasks.contains_key(id) ==> storage.touched(id, category).all_counted(),
        storage.tasks.contains_key(id) ==> storage.touched(id, category).all_copied(),
{
    let accessed = storage.accessed(id);
    let initialized = storage.initialized(id);
    let touched = storage.touched(id, category);
    assert forall|other: u32| #[trigger] accessed.is_modified(other) implies storage.is_modified(
        other,
    ) by {}
    assert forall|other: u32| #[trigger] initialized.is_modified(
        other,
    ) implies storage.is_modified(other) by {}
    if storage.tasks.contains_key(id) {
        assert forall|other: u32| #[trigger] touched.is_modified(
            other,
        ) implies storage.is_modified(other) by {}
    }
}

impl ShardView {
    /// Whether a copy of a task is among what is to be encoded.
    pub open spec fn lists_copy(self, id: u32) -> bool {
        exists|i: int| 0 <= i < self.direct.len() && #[trigger] self.direct[i].0 == id
    }

    /// Whether a task or a copy of it is among what is to be encoded.
    pub open spec fn lists(self, id: u32) -> bool {
        self.lists_copy(id) || self.modified.contains(id)
    }
}

/// A scan hands out every modified task once: in one shard only, and there either the copy of it
/// or the task itself.
pub proof fn law_every_modified_task_is_handed_out_once(
    storage: StorageView,
    found: Seq<ShardView>,
    shards: Seq<int>,
    id: u32,
)
    requires
        storage.all_counted(),
        storage.all_copied(),
        crate::model::found_in_shards(found, shards, storage),
        storage.is_modified(id),
    ensures
        exists|i: int|
            {
                &&& 0 <= i < found.len()
                &&& #[trigger] found[i].lists(id)
                &&& !(found[i].lists_copy(id) && found[i].modified.contains(id))
                &&& forall|j: int|
                    0 <= j < found.len() && #[trigger] found[j].lists(id) ==> j == i
            },
{
    assert(storage.is_scanned(id));
    assert(storage.hands_out_copy(id) || storage.hands_out_task(id));
    let home = (storage.home)(id);
    assert(shards.contains(home));
    let i = choose|i: int| 0 <= i < shards.len() && shards[i] == home;
    assert(found[i].found_in(storage, shards[i]));
    assert(found[i].lists(id));
    assert forall|j: int| 0 <= j < found.len() && #[trigger] found[j].lists(id) implies j == i by {
        assert(found[j].found_in(storage, shards[j]));
        if found[j].lists_copy(id) {
            let k = choose|k: int|
                0 <= k < found[j].direct.len() && #[trigger] found[j].direct[k].0 == id;
            assert((storage.home)(found[j].direct[k].0) == shards[j]);
        }
        assert(shards[j] == shards[i]);
    }
}

/// A scan hands out nothing but modified tasks, and none that is transient.
pub proof fn law_only_modified_tasks_are_handed_out(
    storage: StorageView,
    found: ShardView,
    shard: int,
    id: u32,
)
    requires
        storage.consistent(),
        found.found_in(storage, shard),
        found.lists(id),
    ensures
        storage.is_modified(id),
        !crate::task::is_transient_id(id),
{
    if found.lists_copy(id) {
        let i = choose|i: int| 0 <= i < found.direct.len() && #[trigger] found.direct[i].0 == id;
        assert(storage.hands_out_copy(found.direct[i].0));
    }
    assert(storage.consistent_at(id));
}

/// When a snapshot starts, what it is to persist is at hand.
pub proof fn law_snapshot_keeps_its_start(storage: StorageView)
    requires
        storage.consistent(),
        !storage.snapshot_mode,
    ensures
        storage.started().keeps(storage, Set::new(|id: u32| storage.is_modified(id))),
{
    let started = storage.started();
    let pending = Set::new(|id: u32| storage.is_modified(id));
    assert forall|id: u32| #[trigger] pending.contains(id) implies {
        &&& started.is_modified(id)
        &&& started.is_ready(id)
        &&& started.encoded(id) is Some
        &&& started.encoded(id)->0.meta == storage.tasks[id].meta
        &&& started.encoded(id)->0.data == storage.tasks[id].data
        &&& started.encoded(id)->0.flags.meta_modified == storage.tasks[id].flags.meta_modified
        &&& started.encoded(id)->0.flags.data_modified == storage.tasks[id].flags.data_modified
        &&& started.encoded(id)->0.flags.new_task == storage.tasks[id].flags.new_task
    } by {
        assert(storage.consistent_at(id));
    }
}

/// Keeping track of a modification during a snapshot, giving access to tasks, and marking further
/// tasks as new leave at hand what the snapshot is to persist.
pub proof fn law_tracking_keeps_the_snapshot(
    storage: StorageView,
    id: u32,
    category: SpecificTaskDataCategory,
    start: StorageView,
    pending: Set<u32>,
)
    requires
        storage.snapshot_mode,
        storage.keeps(start, pending),
    ensures
        storage.accessed(id).keeps(start, pending),
        !pending.contains(id) ==> storage.initialized(id).keeps(start, pending),
        storage.tasks.contains_key(id) ==> storage.touched(id, category).keeps(start, pending),
{
    let accessed = storage.accessed(id);
    assert(accessed.keeps(start, pending));
    if !pending.contains(id) {
        assert(storage.initialized(id).keeps(start, pending));
    }
    if storage.tasks.contains_key(id) {
        let touched = storage.touched(id, category);
        assert forall|other: u32| #[trigger] pending.contains(other) implies {
            &&& touched.is_modified(other)
            &&& touched.is_ready(other)
            &&& touched.encoded(other) is Some
            &&& touched.encoded(other)->0.meta == start.tasks[other].meta
            &&& touched.encoded(other)->0.data == start.tasks[other].data
            &&& touched.encoded(other)->0.flags.meta_modified == start.tasks[other].flags.meta_modified
            &&& touched.encoded(other)->0.flags.data_modified == start.tasks[other].flags.data_modified
            &&& touched.encoded(other)->0.flags.new_task == start.tasks[other].flags.new_task
        } by {
        }
    }
}

/// A task that is kept track of can be written to during a snapshot without a change to what the
/// snapshot is to persist.
pub proof fn law_writing_keeps_the_snapshot(
    storage: StorageView,
    id: u32,
    task: TaskView,
    start: StorageView,
    pending: Set<u32>,
)
    requires
        storage.keeps(start, pending),
        storage.is_modified_during_snapshot(id),
        task.flags == storage.tasks[id].flags,
    ensures
        storage.with_task(id, task).keeps(start, pending),
{
}

/// The copies that a scan hands out are of the tasks as they were when the snapshot started, and
/// what the snapshot is to persist of the other tasks is still at hand.
pub proof fn law_scanning_keeps_the_snapshot(
    storage: StorageView,
    start: StorageView,
    pending: Set<u32>,
)
    requires
        storage.consistent(),
        storage.keeps(start, pending),
    ensures
        forall|id: u32| #[trigger]
            storage.hands_out_copy(id) && pending.contains(id)
                ==> storage.snapshots[id]->0.snapshot_copy() == start.tasks[id].snapshot_copy(),
        forall|id: u32| #[trigger]
            storage.hands_out_copy(id) && pending.contains(id) ==> {
                &&& storage.snapshots[id]->0.meta == start.tasks[id].meta
                &&& storage.snapshots[id]->0.data == start.tasks[id].data
                &&& storage.snapshots[id]->0.flags.meta_modified == start.tasks[id].flags.meta_modified
                &&& storage.snapshots[id]->0.flags.data_modified == start.tasks[id].flags.data_modified
                &&& storage.snapshots[id]->0.flags.new_task == start.tasks[id].flags.new_task
            },
        storage.scanned().keeps(
            start,
            pending.difference(Set::new(|id: u32| storage.hands_out_copy(id))),
        ),
{
    let scanned = storage.scanned();
    let rest = pending.difference(Set::new(|id: u32| storage.hands_out_copy(id)));
    assert forall|id: u32| #[trigger]
        storage.hands_out_copy(id) && pending.contains(
            id,
        ) implies storage.snapshots[id]->0.snapshot_copy() == start.tasks[id].snapshot_copy() by {
        assert(storage.consistent_at(id));
    }
    assert forall|id: u32| #[trigger] rest.contains(id) implies {
        &&& scanned.is_modified(id)
        &&& scanned.is_ready(id)
        &&& scanned.encoded(id) is Some
        &&& scanned.encoded(id)->0.meta == start.tasks[id].meta
        &&& scanned.encoded(id)->0.data == start.tasks[id].data
        &&& scanned.encoded(id)->0.flags.meta_modified == start.tasks[id].flags.meta_modified
        &&& scanned.encoded(id)->0.flags.data_modified == start.tasks[id].flags.data_modified
        &&& scanned.encoded(id)->0.flags.new_task == start.tasks[id].flags.new_task
    } by {
        assert(pending.contains(id));
        assert(storage.consistent_at(id));
    }
}

/// What is encoded of a task that the snapshot is to persist is its state when the snapshot
/// started, and encoding a task leaves at hand what the snapshot is to persist of the others.
pub proof fn law_encoding_keeps_the_snapshot(
    storage: StorageView,
    id: u32,
    start: StorageView,
    pending: Set<u32>,
)
    requires
        storage.keeps(start, pending),
    ensures
        pending.contains(id) ==> storage.encoded(id) is Some
            && storage.encoded(id)->0.snapshot_copy() == start.tasks[id].snapshot_copy(),
        pending.contains(id) ==> {
            &&& storage.encoded(id)->0.meta == start.tasks[id].meta
            &&& storage.encoded(id)->0.data == start.tasks[id].data
            &&& storage.encoded(id)->0.flags.meta_modified == start.tasks[id].flags.meta_modified
            &&& storage.encoded(id)->0.flags.data_modified == start.tasks[id].flags.data_modified
            &&& storage.encoded(id)->0.flags.new_task == start.tasks[id].flags.new_task
        },
        storage.flushed(id).keeps(start, pending.remove(id)),
{
    let flushed = storage.flushed(id);
    assert forall|other: u32| #[trigger] pending.remove(id).contains(other) implies {
        &&& flushed.is_modified(other)
        &&& flushed.is_ready(other)
        &&& flushed.encoded(other) is Some
        &&& flushed.encoded(other)->0.meta == start.tasks[other].meta
        &&& flushed.encoded(other)->0.data == start.tasks[other].data
        &&& flushed.encoded(other)->0.flags.meta_modified == start.tasks[other].flags.meta_modified
        &&& flushed.encoded(other)->0.flags.data_modified == start.tasks[other].flags.data_modified
        &&& flushed.encoded(other)->0.flags.new_task == start.tasks[other].flags.new_task
    } by {
        assert(pending.contains(other));
    }
}

/// What was modified during a snapshot is modified for the next one, whether its task was encoded
/// after that or not.
pub proof fn law_modifications_during_a_snapshot_survive(
    storage: StorageView,
    id: u32,
    category: SpecificTaskDataCategory,
)
    requires
        storage.consistent(),
        storage.tasks.contains_key(id),
        storage.tasks[id].flags.is_modified_during_snapshot(category),
    ensures
        storage.ended().tasks[id].flags.is_modified(category),
        storage.flushed(id).tasks[id].flags.is_modified(category),
        storage.flushed(id).ended().tasks[id].flags.is_modified(category),
{
    assert(storage.consistent_at(id));
}

/// Keeping track of a modification makes it count: outside of a snapshot at once, during one for
/// the next one.
pub proof fn law_tracking_takes_effect(
    storage: StorageView,
    id: u32,
    category: SpecificTaskDataCategory,
)
    requires
        storage.consistent(),
        storage.tasks.contains_key(id),
    ensures
        !storage.snapshot_mode ==> storage.touched(id, category).tasks[id].flags.is_modified(
            category,
        ),
        storage.snapshot_mode ==> storage.touched(
            id,
            category,
        ).tasks[id].flags.is_modified_during_snapshot(category),
        storage.touched(id, category).ended().tasks[id].flags.is_modified(category),
{
    assert(storage.consistent_at(id));
}

/// Keeping track of the same modification again changes nothing.
pub proof fn law_tracking_twice_is_tracking_once(
    storage: StorageView,
    id: u32,
    category: SpecificTaskDataCategory,
)
    requires
        storage.tasks.contains_key(id),
    ensures
        storage.touched(id, category).touched(id, category) == storage.touched(id, category),
{
}

/// Keeping track of a modification that is known already changes nothing.
pub proof fn law_known_modification_changes_nothing(
    storage: StorageView,
    id: u32,
    category: SpecificTaskDataCategory,
)
    requires
        storage.tasks.contains_key(id),
        storage.tasks[id].flags.is_modified_during_snapshot(category) || (!storage.snapshot_mode
            && storage.tasks[id].flags.is_modified(category)),
    ensures
        storage.touched(id, category) == storage,
{
}

/// The note that is kept of a task when it is first modified during a snapshot stays as it is,
/// whatever is written to the task and whichever category is modified after that.
pub proof fn law_first_note_is_kept(
    storage: StorageView,
    id: u32,
    first: SpecificTaskDataCategory,
    second: SpecificTaskDataCategory,
    task: TaskView,
)
    requires
        storage.snapshot_mode,
        storage.tasks.contains_key(id),
        !storage.is_modified_during_snapshot(id),
        task.flags == storage.touched(id, first).tasks[id].flags,
    ensures
        ({
            let copy = if storage.is_modified(id) {
                Some(storage.tasks[id].snapshot_copy())
            } else {
                None
            };
            let touched = storage.touched(id, first);
            let again = touched.with_task(id, task).touched(id, second);
            &&& touched.snapshots == storage.snapshots.insert(id, copy)
            &&& again.snapshots == touched.snapshots
            &&& again.tasks[id].flags.is_modified_during_snapshot(first)
            &&& again.tasks[id].flags.is_modified_during_snapshot(second)
        }),
{
}

/// Keeping track of a modification changes no task but for the flags of the one concerned, and no
/// copy that is kept already.
pub proof fn law_tracking_changes_flags_only(
    storage: StorageView,
    id: u32,
    category: SpecificTaskDataCategory,
    other: u32,
)
    requires
        storage.consistent(),
        storage.tasks.contains_key(id),
        storage.tasks.contains_key(other),
    ensures
        ({
            let touched = storage.touched(id, category);
            &&& touched.tasks.dom() == storage.tasks.dom()
            &&& other != id ==> touched.tasks[other] == storage.tasks[other]
            &&& touched.tasks[id].meta == storage.tasks[id].meta
            &&& touched.tasks[id].data == storage.tasks[id].data
            &&& touched.tasks[id].transient == storage.tasks[id].transient
            &&& storage.snapshots.contains_key(other) ==> touched.snapshots.contains_key(other)
                && touched.snapshots[other] == storage.snapshots[other]
        }),
{
    assert(storage.consistent_at(id));
    assert(storage.touched(id, category).tasks.dom() =~= storage.tasks.dom());
}

/// Where no task is modified during a snapshot, nothing is modified after all modified tasks have
/// been encoded, in whatever order.
pub proof fn law_quiet_snapshot_persists_everything(storage: StorageView, ids: Seq<u32>, id: u32)
    requires
        forall|id: u32| !(#[trigger] storage.is_modified_during_snapshot(id)),
        forall|i: int| 0 <= i < ids.len() ==> storage.tasks.contains_key(#[trigger] ids[i]),
        forall|id: u32| #[trigger] storage.is_modified(id) ==> ids.contains(id),
    ensures
        !storage.flushed_last(ids, ids.len()).is_modified(id),
        !storage.flushed_last(ids, ids.len()).ended().is_modified(id),
{
    lemma_quiet_encoding(storage, ids, ids.len());
    let flushed = storage.flushed_last(ids, ids.len());
    assert(!flushed.is_modified(id)) by {
        if flushed.is_modified(id) {
            assert(ids.contains(id));
            let i = choose|i: int| 0 <= i < ids.len() && ids[i] == id;
            assert(ids[i] == id);
        }
    }
    assert(!flushed.is_modified_during_snapshot(id));
}

/// Where no task is modified during a snapshot, the tasks that have been encoded are not modified
/// any more.
proof fn lemma_quiet_encoding(storage: StorageView, ids: Seq<u32>, n: nat)
    requires
        forall|id: u32| !(#[trigger] storage.is_modified_during_snapshot(id)),
        forall|i: int| 0 <= i < ids.len() ==> storage.tasks.contains_key(#[trigger] ids[i]),
        n <= ids.len(),
    ensures
        ({
            let flushed = storage.flushed_last(ids, n);
            &&& forall|id: u32| !(#[trigger] flushed.is_modified_during_snapshot(id))
            &&& flushed.tasks.dom() == storage.tasks.dom()
            &&& forall|id: u32| #[trigger]
                flushed.is_modified(id) ==> storage.is_modified(id) && forall|i: int|
                    ids.len() - n <= i < ids.len() ==> #[trigger] ids[i] != id
        }),
    decreases n,
{
    if n > 0 {
        let before = storage.flushed_last(ids, (n - 1) as nat);
        let flushed = storage.flushed_last(ids, n);
        let last = ids[ids.len() - n];
        lemma_quiet_encoding(storage, ids, (n - 1) as nat);
        assert(storage.tasks.contains_key(last));
        assert(!before.is_modified_during_snapshot(last));
        assert(flushed.tasks.dom() =~= storage.tasks.dom());
        assert forall|id: u32| !(#[trigger] flushed.is_modified_during_snapshot(id)) by {
            assert(!before.is_modified_during_snapshot(id));
        }
        assert forall|id: u32| #[trigger] flushed.is_modified(id) implies storage.is_modified(id)
            && forall|i: int|
            ids.len() - n <= i < ids.len() ==> #[trigger] ids[i] != id by {
            assert(id != last);
            assert(before.is_modified(id));
        }
    }
}

/// A thread gets back the buffer that it returned.
pub proof fn law_returned_buffer_is_used_again(
    before: Map<nat, ScratchBufferSlot>,
    returned: Map<nat, ScratchBufferSlot>,
    taken: Map<nat, ScratchBufferSlot>,
    thread: nat,
    buffer: TurboBincodeBuffer,
    accepted: Result<(), ScratchBufferError>,
    again: Result<TurboBincodeBuffer, ScratchBufferError>,
)
    requires
        crate::scratch::returns_buffer(before, thread, returned, buffer, accepted),
        crate::scratch::takes_buffer(returned, thread, taken, again),
    ensures
        again == Ok::<_, ScratchBufferError>(buffer),
{
}

/// A thread can return a buffer that it took, but not take it twice, nor return it twice.
pub proof fn law_buffers_are_taken_and_returned_in_turn(
    before: Map<nat, ScratchBufferSlot>,
    after: Map<nat, ScratchBufferSlot>,
    twice: Map<nat, ScratchBufferSlot>,
    thread: nat,
    taken: Result<TurboBincodeBuffer, ScratchBufferError>,
    taken_again: Result<TurboBincodeBuffer, ScratchBufferError>,
    buffer: TurboBincodeBuffer,
    accepted: Result<(), ScratchBufferError>,
    accepted_again: Result<(), ScratchBufferError>,
)
    ensures
        crate::scratch::takes_buffer(before, thread, after, taken) && crate::scratch::takes_buffer(
            after,
            thread,
            twice,
            taken_again,
        ) ==> taken_again == Err::<TurboBincodeBuffer, _>(ScratchBufferError::TakenTwice),
        crate::scratch::takes_buffer(before, thread, after, taken)
            && crate::scratch::returns_buffer(after, thread, twice, buffer, accepted)
            ==> accepted is Ok,
        crate::scratch::returns_buffer(before, thread, after, buffer, accepted)
            && crate::scratch::returns_buffer(after, thread, twice, buffer, accepted_again)
            ==> accepted_again == Err::<(), _>(ScratchBufferError::ReturnedWhileAvailable),
{
}

/// What a thread does with its buffer leaves the buffers of the other threads alone.
pub proof fn law_threads_have_buffers_of_their_own(
    before: Map<nat, ScratchBufferSlot>,
    after: Map<nat, ScratchBufferSlot>,
    thread: nat,
    other: nat,
    taken: Result<TurboBincodeBuffer, ScratchBufferError>,
    buffer: TurboBincodeBuffer,
    accepted: Result<(), ScratchBufferError>,
)
    requires
        crate::scratch::takes_buffer(before, thread, after, taken)
            || crate::scratch::returns_buffer(before, thread, after, buffer, accepted),
        other != thread,
    ensures
        crate::scratch::slot_of_thread(after, other) == crate::scratch::slot_of_thread(
            before,
            other,
        ),
{
}

} // verus!
