//! What a storage holds, and what each of its operations does to that.
use crate::category::{SpecificTaskDataCategory, TaskDataCategory};
use crate::task::{TaskFlags, TaskView};
use vstd::prelude::*;

verus! {

/// A counter of 64 bits after `n` increments. It starts over at zero when it is full.
pub open spec fn advance_count(count: u64, n: nat) -> u64 {
    ((count + n) % (u64::MAX + 1)) as u64
}

/// The contents of a storage.
#[verifier::ext_equal]
pub struct StorageView {
    /// Whether a snapshot is being written.
    pub snapshot_mode: bool,
    /// For each shard, how often a task in it became modified since the shard was last scanned.
    pub counts: Seq<u64>,
    /// The tasks accessed while a snapshot is being written: with a copy of its state before the
    /// snapshot where the task was modified before it, without one where it was not.
    pub snapshots: Map<u32, Option<TaskView>>,
    /// The tasks.
    pub tasks: Map<u32, TaskView>,
    /// The shard to which each identifier belongs.
    pub home: spec_fn(u32) -> int,
}

impl StorageView {
    /// Every identifier belongs to one of the shards.
    pub open spec fn valid(self) -> bool {
        forall|id: u32| 0 <= #[trigger] (self.home)(id) < self.counts.len()
    }

    /// Whether there is a task that differs from what is persisted.
    pub open spec fn is_modified(self, id: u32) -> bool {
        self.tasks.contains_key(id) && self.tasks[id].flags.any_modified()
    }

    /// Whether there is a task that was modified while a snapshot is being written.
    pub open spec fn is_modified_during_snapshot(self, id: u32) -> bool {
        self.tasks.contains_key(id) && self.tasks[id].flags.any_modified_during_snapshot()
    }

    /// One task has other contents.
    pub open spec fn with_task(self, id: u32, task: TaskView) -> StorageView {
        StorageView { tasks: self.tasks.insert(id, task), ..self }
    }

    /// One task has other flags.
    pub open spec fn with_flags(self, id: u32, flags: TaskFlags) -> StorageView {
        self.with_task(id, TaskView { flags, ..self.tasks[id] })
    }

    /// There is a task: the one that was there, or else a blank one.
    pub open spec fn accessed(self, id: u32) -> StorageView {
        if self.tasks.contains_key(id) {
            self
        } else {
            self.with_task(id, TaskView::blank())
        }
    }

    /// There is a task that is marked as restored and as new.
    pub open spec fn initialized(self, id: u32) -> StorageView {
        let there = self.accessed(id);
        there.with_flags(
            id,
            TaskFlags {
                new_task: true,
                ..there.tasks[id].flags.with_restored(TaskDataCategory::All)
            },
        )
    }

    /// One more modified task is counted in the shard of an identifier.
    pub open spec fn counted(self, id: u32) -> StorageView {
        let shard = (self.home)(id);
        StorageView {
            counts: self.counts.update(shard, advance_count(self.counts[shard], 1)),
            ..self
        }
    }

    /// A task is accessed for the first time while a snapshot is being written: where it is part
    /// of the snapshot, a copy of it is kept.
    pub open spec fn remembered(self, id: u32) -> StorageView {
        let task = self.tasks[id];
        let copy = if task.flags.any_modified() {
            Some(task.snapshot_copy())
        } else {
            None
        };
        StorageView { snapshots: self.snapshots.insert(id, copy), ..self }
    }

    /// A category of a task is about to be modified.
    pub open spec fn touched(self, id: u32, category: SpecificTaskDataCategory) -> StorageView {
        let flags = self.tasks[id].flags;
        if flags.is_modified_during_snapshot(category) {
            self
        } else if self.snapshot_mode {
            let kept = if flags.any_modified_during_snapshot() {
                self
            } else {
                self.remembered(id)
            };
            kept.with_flags(id, flags.with_modified_during_snapshot(category, true))
        } else if flags.is_modified(category) {
            self
        } else {
            let counted = if flags.any_modified() {
                self
            } else {
                self.counted(id)
            };
            counted.with_flags(id, flags.with_modified(category, true))
        }
    }

    /// A snapshot is being written.
    pub open spec fn started(self) -> StorageView {
        StorageView { snapshot_mode: true, ..self }
    }

    /// Whether a scan of the shards comes across a modified task: it skips the shards in which no
    /// modified task is counted.
    pub open spec fn is_scanned(self, id: u32) -> bool {
        self.is_modified(id) && self.counts[(self.home)(id)] > 0
    }

    /// Whether a scan of the shards hands out the copy that is kept of a task.
    pub open spec fn hands_out_copy(self, id: u32) -> bool {
        self.is_scanned(id) && self.snapshots.contains_key(id) && self.snapshots[id] is Some
    }

    /// Whether a scan of the shards leaves a task to be encoded from what the storage holds.
    pub open spec fn hands_out_task(self, id: u32) -> bool {
        self.is_scanned(id) && !self.snapshots.contains_key(id)
    }

    /// The shards below one are scanned: their counts start again, and the copies found in them
    /// are handed out.
    pub open spec fn scanned_below(self, limit: int) -> StorageView {
        StorageView {
            counts: Seq::new(
                self.counts.len(),
                |shard: int|
                    if shard < limit {
                        0
                    } else {
                        self.counts[shard]
                    },
            ),
            snapshots: self.snapshots.map_entries(
                |id: u32, copy: Option<TaskView>|
                    if self.is_scanned(id) && (self.home)(id) < limit {
                        None
                    } else {
                        copy
                    },
            ),
            ..self
        }
    }

    /// All shards are scanned.
    pub open spec fn scanned(self) -> StorageView {
        self.scanned_below(self.counts.len() as int)
    }

    /// Whether a task can be encoded: it is there, and if it was modified during the snapshot, it
    /// is kept note of.
    pub open spec fn is_ready(self, id: u32) -> bool {
        &&& self.tasks.contains_key(id)
        &&& self.is_modified_during_snapshot(id) ==> self.snapshots.contains_key(id)
    }

    /// What of a task that a scan left to be encoded is encoded: the task itself, or the copy of
    /// it where it was modified since.
    pub open spec fn encoded(self, id: u32) -> Option<TaskView> {
        if self.tasks[id].flags.any_modified_during_snapshot() {
            self.snapshots[id]
        } else {
            Some(self.tasks[id])
        }
    }

    /// A task that a scan left to be encoded has been: it is persisted, or, where it was modified
    /// since, it is modified for the next snapshot.
    pub open spec fn flushed(self, id: u32) -> StorageView {
        let flags = self.tasks[id].flags;
        if flags.any_modified_during_snapshot() {
            StorageView {
                snapshots: self.snapshots.remove(id),
                ..self.counted(id).with_flags(id, flags.promoted())
            }
        } else {
            self.with_flags(id, flags.persisted())
        }
    }

    /// The last `n` tasks of a list have been encoded, from its end on.
    pub open spec fn flushed_last(self, ids: Seq<u32>, n: nat) -> StorageView
        decreases n,
    {
        if n == 0 {
            self
        } else {
            self.flushed_last(ids, (n - 1) as nat).flushed(ids[ids.len() - n])
        }
    }

    /// Those of some tasks that were modified during the snapshot and belong to a shard.
    pub open spec fn promotable(self, ids: Set<u32>, shard: int) -> Set<u32> {
        ids.filter(|id: u32| self.is_modified_during_snapshot(id) && (self.home)(id) == shard)
    }

    /// Some tasks are modified if they were modified during the snapshot, and counted as such.
    pub open spec fn promoted(self, ids: Set<u32>) -> StorageView {
        StorageView {
            counts: Seq::new(
                self.counts.len(),
                |shard: int| advance_count(self.counts[shard], self.promotable(ids, shard).len()),
            ),
            tasks: self.tasks.map_entries(
                |id: u32, task: TaskView|
                    if ids.contains(id) {
                        TaskView { flags: task.flags.promoted(), ..task }
                    } else {
                        task
                    },
            ),
            ..self
        }
    }

    /// The snapshot is over: what was modified during it is modified for the next one.
    pub open spec fn ended(self) -> StorageView {
        StorageView {
            snapshot_mode: false,
            snapshots: Map::empty(),
            ..self.promoted(self.snapshots.dom())
        }
    }

    /// Neither a task nor a copy of one is left.
    pub open spec fn emptied(self) -> StorageView {
        StorageView { snapshots: Map::empty(), tasks: Map::empty(), ..self }
    }
}

/// What a scan found in a shard: the copies of tasks that it hands out, and the tasks that it
/// leaves to be encoded from what the storage holds.
#[verifier::ext_equal]
pub struct ShardView {
    pub direct: Seq<(u32, TaskView)>,
    pub modified: Seq<u32>,
}

impl ShardView {
    /// There is nothing of the kind.
    pub open spec fn is_empty(self) -> bool {
        self.direct.len() == 0 && self.modified.len() == 0
    }

    /// Whether this is what a scan finds in a shard of a storage: everything, once each, in
    /// whatever order the scan comes across it.
    pub open spec fn found_in(self, storage: StorageView, shard: int) -> bool {
        &&& forall|i: int, j: int|
            0 <= i < j < self.direct.len() ==> self.direct[i].0 != self.direct[j].0
        &&& forall|i: int|
            #![trigger self.direct[i]]
            0 <= i < self.direct.len() ==> {
                &&& (storage.home)(self.direct[i].0) == shard
                &&& storage.hands_out_copy(self.direct[i].0)
                &&& storage.snapshots[self.direct[i].0] == Some(self.direct[i].1)
            }
        &&& forall|id: u32| #[trigger]
            storage.hands_out_copy(id) && (storage.home)(id) == shard ==> exists|i: int|
                0 <= i < self.direct.len() && #[trigger] self.direct[i].0 == id
        &&& self.modified.no_duplicates()
        &&& forall|id: u32| #[trigger]
            self.modified.contains(id) <==> storage.hands_out_task(id) && (storage.home)(id)
                == shard
    }
}

/// Whether these are what a scan finds in the shards of a storage: one for each of `shards`, which
/// are those in which there is something, in their order.
pub open spec fn found_in_shards(
    found: Seq<ShardView>,
    shards: Seq<int>,
    storage: StorageView,
) -> bool {
    &&& found.len() == shards.len()
    &&& forall|i: int, j: int| 0 <= i < j < shards.len() ==> shards[i] < shards[j]
    &&& forall|i: int|
        #![trigger found[i]]
        #![trigger shards[i]]
        0 <= i < found.len() ==> {
            &&& 0 <= shards[i] < storage.counts.len()
            &&& !found[i].is_empty()
            &&& found[i].found_in(storage, shards[i])
        }
    &&& forall|id: u32|
        #![trigger storage.hands_out_copy(id)]
        #![trigger storage.hands_out_task(id)]
        storage.hands_out_copy(id) || storage.hands_out_task(id) ==> shards.contains(
            (storage.home)(id),
        )
}

/// Scanning the shards below one leaves what a scan finds in that shard as it is.
pub proof fn lemma_scan_in_order(storage: StorageView, shard: int)
    requires
        storage.valid(),
        0 <= shard < storage.counts.len(),
    ensures
        forall|id: u32|
            #![trigger storage.is_scanned(id)]
            #![trigger storage.scanned_below(shard).is_scanned(id)]
            (storage.home)(id) == shard ==> storage.scanned_below(shard).is_scanned(id)
                == storage.is_scanned(id),
        forall|id: u32| #[trigger]
            storage.hands_out_copy(id) && (storage.home)(id) == shard
                ==> storage.scanned_below(shard).hands_out_copy(id),
        forall|id: u32| #[trigger]
            storage.hands_out_task(id) && (storage.home)(id) == shard
                ==> storage.scanned_below(shard).hands_out_task(id),
        forall|found: ShardView| #[trigger]
            found.found_in(storage.scanned_below(shard), shard) ==> found.found_in(storage, shard),
{
    let below = storage.scanned_below(shard);
    assert forall|id: u32| (storage.home)(id) == shard implies {
        &&& below.hands_out_copy(id) == storage.hands_out_copy(id)
        &&& below.hands_out_task(id) == storage.hands_out_task(id)
        &&& storage.snapshots.contains_key(id) ==> below.snapshots[id] == storage.snapshots[id]
    } by {}
    assert forall|found: ShardView| #[trigger]
        found.found_in(below, shard) implies found.found_in(storage, shard) by {
        assert forall|id: u32| #[trigger]
            storage.hands_out_copy(id) && (storage.home)(id) == shard implies exists|i: int|
            0 <= i < found.direct.len() && #[trigger] found.direct[i].0 == id by {
            assert(below.hands_out_copy(id));
        }
        assert forall|id: u32| #[trigger]
            found.modified.contains(id) <==> storage.hands_out_task(id) && (storage.home)(id)
                == shard by {
            assert(found.modified.contains(id) <==> below.hands_out_task(id) && (below.home)(id)
                == shard);
        }
    }
}

/// One more task is promoted.
pub proof fn lemma_promote_one(storage: StorageView, ids: Set<u32>, id: u32)
    requires
        storage.valid(),
        ids.finite(),
        !ids.contains(id),
    ensures
        ({
            let before = storage.promoted(ids);
            let after = storage.promoted(ids.insert(id));
            if !storage.tasks.contains_key(id) {
                after == before
            } else {
                let flags = storage.tasks[id].flags;
                let counted = if flags.any_modified_during_snapshot() {
                    before.counted(id)
                } else {
                    before
                };
                &&& before.tasks[id] == storage.tasks[id]
                &&& after == counted.with_flags(id, flags.promoted())
            }
        }),
{
    let before = storage.promoted(ids);
    let after = storage.promoted(ids.insert(id));
    let moves = storage.is_modified_during_snapshot(id);
    assert forall|shard: int| 0 <= shard < storage.counts.len() implies after.counts[shard] == (if moves
        && shard == (storage.home)(id) {
        advance_count(before.counts[shard], 1)
    } else {
        before.counts[shard]
    }) by {
        let some = storage.promotable(ids, shard);
        let more = storage.promotable(ids.insert(id), shard);
        assert(some.finite());
        if moves && shard == (storage.home)(id) {
            assert(more =~= some.insert(id));
            let n = some.len();
            let count = storage.counts[shard] as int;
            let range = u64::MAX + 1;
            assert(((count + n) % range + 1) % range == (count + (n + 1)) % range)
                by (nonlinear_arith)
                requires
                    range > 0,
            ;
        } else {
            assert(more =~= some);
        }
    }
    assert((storage.home)(id) == (before.home)(id));
    if storage.tasks.contains_key(id) {
        let flags = storage.tasks[id].flags;
        let counted = if flags.any_modified_during_snapshot() {
            before.counted(id)
        } else {
            before
        };
        assert(after.counts =~= counted.counts);
        assert(after.tasks =~= counted.with_flags(id, flags.promoted()).tasks);
    } else {
        assert(after.counts =~= before.counts);
        assert(after.tasks =~= before.tasks);
    }
}

} // verus!
