//! What holds of a storage in every run, that is, after any operations on it in any order.
use crate::category::SpecificTaskDataCategory;
use crate::model::{ShardView, StorageView};
use crate::task::TaskView;
use vstd::prelude::*;

verus! {

/// An operation on a storage.
pub enum Operation {
    /// Access is given to a task.
    Access { id: u32 },
    /// A new task is initialized.
    Initialize { id: u32 },
    /// A modification of a task is kept track of.
    Track { id: u32, category: SpecificTaskDataCategory },
    /// The fields of a task are written to.
    Write { id: u32, task: TaskView },
    /// A snapshot is started.
    Start,
    /// The shards are scanned for the snapshot, and the copies found are encoded.
    Scan,
    /// A task that the scan left to be encoded is encoded.
    Encode { id: u32 },
    /// The snapshot is ended.
    End,
    /// All tasks are dropped.
    Drop,
}

/// A storage in the course of a run.
pub struct Run {
    pub storage: StorageView,
    /// The tasks that a scan left to be encoded, and that were not encoded yet.
    pub pending: Set<u32>,
    /// The storage when the snapshot that is being written was started.
    pub start: StorageView,
    /// Whether the shards were scanned for the snapshot that is being written.
    pub scanned: bool,
    /// The tasks that were modified when the snapshot was started, and that were not encoded yet.
    pub unsaved: Set<u32>,
}

impl Run {
    /// Nothing was done with a storage yet.
    pub open spec fn of(storage: StorageView) -> Run {
        Run {
            storage,
            pending: Set::empty(),
            start: storage,
            scanned: false,
            unsaved: Set::empty(),
        }
    }

    /// Whether an operation is one that can come next:
    /// - there is the task that it is about, which is not transient if it is to be modified, and
    ///   is not one to be persisted if it is meant to be new;
    /// - a task is written to during a snapshot only after that was kept track of;
    /// - one snapshot is started at a time, after all tasks of the one before it were encoded, and
    ///   the shards are scanned once for it.
    pub open spec fn accepts(self, operation: Operation) -> bool {
        let storage = self.storage;
        match operation {
            Operation::Access { id } => true,
            Operation::Initialize { id } => !self.unsaved.contains(id),
            Operation::Track { id, category } => {
                &&& storage.tasks.contains_key(id)
                &&& !crate::task::is_transient_id(id)
            },
            Operation::Write { id, task } => {
                &&& storage.tasks.contains_key(id)
                &&& task.flags == storage.tasks[id].flags
                &&& storage.snapshot_mode ==> storage.is_modified_during_snapshot(id)
            },
            Operation::Start => !storage.snapshot_mode && self.pending == Set::<u32>::empty(),
            Operation::Scan => storage.snapshot_mode && !self.scanned,
            Operation::Encode { id } => self.pending.contains(id),
            Operation::End => storage.snapshot_mode,
            Operation::Drop => true,
        }
    }

    /// Whether no count gets full by an operation.
    pub open spec fn has_room(self, operation: Operation) -> bool {
        let storage = self.storage;
        match operation {
            Operation::Track { id, category } => storage.counts[(storage.home)(id)] < u64::MAX,
            Operation::Encode { id } => storage.counts[(storage.home)(id)] < u64::MAX,
            Operation::End => forall|shard: int|
                0 <= shard < storage.counts.len() ==> #[trigger] storage.counts[shard]
                    + storage.promotable(storage.snapshots.dom(), shard).len() <= u64::MAX,
            _ => true,
        }
    }

    /// Whether an operation is one that may come next: it can, and no count gets full by it.
    pub open spec fn allows(self, operation: Operation) -> bool {
        self.accepts(operation) && self.has_room(operation)
    }

    /// The run after one more operation.
    pub open spec fn after(self, operation: Operation) -> Run {
        let storage = self.storage;
        match operation {
            Operation::Access { id } => Run { storage: storage.accessed(id), ..self },
            Operation::Initialize { id } => Run { storage: storage.initialized(id), ..self },
            Operation::Track { id, category } => Run {
                storage: storage.touched(id, category),
                ..self
            },
            Operation::Write { id, task } => Run { storage: storage.with_task(id, task), ..self },
            Operation::Start => Run {
                storage: storage.started(),
                start: storage,
                scanned: false,
                unsaved: Set::new(|id: u32| storage.is_modified(id)),
                ..self
            },
            Operation::Scan => Run {
                storage: storage.scanned(),
                pending: self.pending.union(Set::new(|id: u32| storage.hands_out_task(id))),
                scanned: true,
                unsaved: self.unsaved.difference(Set::new(|id: u32| storage.hands_out_copy(id))),
                ..self
            },
            Operation::Encode { id } => Run {
                storage: storage.flushed(id),
                pending: self.pending.remove(id),
                unsaved: self.unsaved.remove(id),
                ..self
            },
            Operation::End => Run { storage: storage.ended(), unsaved: Set::empty(), ..self },
            Operation::Drop => Run {
                storage: storage.emptied(),
                pending: Set::empty(),
                unsaved: Set::empty(),
                ..self
            },
        }
    }

    /// The run after more operations.
    pub open spec fn after_all(self, operations: Seq<Operation>) -> Run
        decreases operations.len(),
    {
        if operations.len() == 0 {
            self
        } else {
            self.after_all(operations.drop_last()).after(operations.last())
        }
    }

    /// Whether operations may come next, one after the other.
    pub open spec fn allows_all(self, operations: Seq<Operation>) -> bool
        decreases operations.len(),
    {
        operations.len() == 0 || {
            &&& self.allows_all(operations.drop_last())
            &&& self.after_all(operations.drop_last()).allows(operations.last())
        }
    }

    /// Whether operations can come next, one after the other.
    pub open spec fn accepts_all(self, operations: Seq<Operation>) -> bool
        decreases operations.len(),
    {
        operations.len() == 0 || {
            &&& self.accepts_all(operations.drop_last())
            &&& self.after_all(operations.drop_last()).accepts(operations.last())
        }
    }

    /// What holds in the course of every run:
    /// - the flags of the tasks and the notes kept for a snapshot agree;
    /// - no modified task is out of sight;
    /// - what a snapshot is to persist is at hand as it was when the snapshot was started;
    /// - until the shards are scanned, every modified task is to be persisted and can be found;
    /// - from then on, what is to be persisted is what is to be encoded.
    pub open spec fn in_order(self) -> bool {
        let storage = self.storage;
        &&& storage.consistent()
        &&& storage.covered(self.pending)
        &&& storage.keeps(self.start, self.unsaved)
        &&& forall|id: u32| #[trigger]
            self.pending.contains(id) ==> storage.tasks.contains_key(id)
        &&& !storage.snapshot_mode ==> self.unsaved == Set::<u32>::empty()
        &&& storage.snapshot_mode && !self.scanned ==> {
            &&& self.pending == Set::<u32>::empty()
            &&& storage.all_counted()
            &&& storage.all_copied()
            &&& forall|id: u32| #[trigger] storage.is_modified(id) ==> self.unsaved.contains(id)
        }
        &&& storage.snapshot_mode && self.scanned ==> self.unsaved == self.pending
    }
}

/// An operation that may come next keeps a run in order.
pub proof fn law_operations_keep_runs_in_order(run: Run, operation: Operation)
    requires
        run.in_order(),
        run.allows(operation),
    ensures
        run.after(operation).in_order(),
{
    let storage = run.storage;
    let after = run.after(operation);
    match operation {
        Operation::Access { id } => {
            crate::laws::law_access_keeps_consistency(storage, id);
            crate::laws::law_access_keeps_tasks_in_sight(storage, id, run.pending);
            assert forall|other: u32| #[trigger] after.storage.is_modified(
                other,
            ) implies storage.is_modified(other) by {}
        },
        Operation::Initialize { id } => {
            crate::laws::law_access_keeps_consistency(storage, id);
            crate::laws::law_access_keeps_tasks_in_sight(storage, id, run.pending);
            assert forall|other: u32| #[trigger] after.storage.is_modified(
                other,
            ) implies storage.is_modified(other) by {}
        },
        Operation::Track { id, category } => {
            crate::laws::law_tracking_keeps_consistency(storage, id, category);
            crate::laws::law_tracking_keeps_tasks_in_sight(storage, id, category, run.pending);
            if storage.snapshot_mode {
                crate::laws::law_tracking_keeps_the_snapshot(
                    storage,
                    id,
                    category,
                    run.start,
                    run.unsaved,
                );
                if !run.scanned {
                    crate::laws::law_snapshot_stays_complete(storage, id, category);
                }
                assert forall|other: u32| #[trigger] after.storage.is_modified(
                    other,
                ) implies storage.is_modified(other) by {}
            }
        },
        Operation::Write { id, task } => {
            crate::laws::law_writing_keeps_flags_in_order(storage, id, task, run.pending);
            assert forall|other: u32| #[trigger] after.storage.is_modified(
                other,
            ) implies storage.is_modified(other) by {}
        },
        Operation::Start => {
            crate::laws::law_snapshots_keep_consistency(storage);
            crate::laws::law_access_keeps_tasks_in_sight(storage, 0, run.pending);
            crate::laws::law_snapshot_starts_complete(storage);
            crate::laws::law_snapshot_keeps_its_start(storage);
        },
        Operation::Scan => {
            crate::laws::law_snapshots_keep_consistency(storage);
            crate::laws::law_scanning_keeps_tasks_in_sight(storage, run.pending);
            crate::laws::law_scanning_keeps_the_snapshot(storage, run.start, run.unsaved);
            assert forall|id: u32| after.unsaved.contains(id) <==> after.pending.contains(id) by {
                if run.unsaved.contains(id) {
                    assert(storage.is_modified(id));
                    assert(storage.is_scanned(id));
                }
            }
            assert(after.unsaved =~= after.pending);
        },
        Operation::Encode { id } => {
            crate::laws::law_encoding_keeps_consistency(storage, id);
            crate::laws::law_encoding_keeps_tasks_in_sight(storage, id, run.pending);
            crate::laws::law_encoding_keeps_the_snapshot(storage, id, run.start, run.unsaved);
            assert(!storage.snapshot_mode ==> after.unsaved =~= run.unsaved);
        },
        Operation::End => {
            crate::laws::law_snapshots_keep_consistency(storage);
            crate::laws::law_ending_keeps_tasks_in_sight(storage, run.pending);
        },
        Operation::Drop => {
            crate::laws::law_snapshots_keep_consistency(storage);
        },
    }
}

/// Every run of a storage that starts without tasks is in order.
pub proof fn law_every_run_is_in_order(storage: StorageView, operations: Seq<Operation>)
    requires
        storage.valid(),
        !storage.snapshot_mode,
        storage.snapshots.is_empty(),
        storage.tasks.is_empty(),
        Run::of(storage).allows_all(operations),
    ensures
        Run::of(storage).after_all(operations).in_order(),
    decreases operations.len(),
{
    if operations.len() == 0 {
        crate::laws::law_empty_storage_is_consistent(storage);
    } else {
        law_every_run_is_in_order(storage, operations.drop_last());
        law_operations_keep_runs_in_order(
            Run::of(storage).after_all(operations.drop_last()),
            operations.last(),
        );
    }
}

/// As long as no snapshot was started and the tasks were not dropped, the count of every shard is
/// the number of modified tasks in it, nothing is kept for a snapshot, and nothing is left to be
/// encoded.
pub proof fn law_counts_are_exact_before_snapshots(
    storage: StorageView,
    operations: Seq<Operation>,
)
    requires
        storage.valid(),
        !storage.snapshot_mode,
        storage.snapshots.is_empty(),
        storage.tasks.is_empty(),
        forall|shard: int|
            0 <= shard < storage.counts.len() ==> #[trigger] storage.counts[shard] == 0,
        Run::of(storage).accepts_all(operations),
        forall|i: int|
            0 <= i < operations.len() ==> !(#[trigger] operations[i] is Start)
                && !(operations[i] is Drop),
    ensures
        ({
            let run = Run::of(storage).after_all(operations);
            &&& run.storage.valid()
            &&& run.storage.exactly_counted()
            &&& run.storage.snapshots.is_empty()
            &&& !run.storage.snapshot_mode
            &&& run.pending == Set::<u32>::empty()
        }),
    decreases operations.len(),
{
    if operations.len() == 0 {
        crate::laws::law_empty_storage_is_exactly_counted(storage);
    } else {
        let earlier = operations.drop_last();
        let last = operations.last();
        assert forall|i: int| 0 <= i < earlier.len() implies !(#[trigger] earlier[i] is Start)
            && !(earlier[i] is Drop) by {
            assert(earlier[i] == operations[i]);
        }
        law_counts_are_exact_before_snapshots(storage, earlier);
        let run = Run::of(storage).after_all(earlier);
        let before = run.storage;
        assert(last == operations[operations.len() - 1]);
        assert(run.accepts(last));
        let some_task = crate::task::TaskView::blank();
        let some_category = SpecificTaskDataCategory::Meta;
        match last {
            Operation::Access { id } | Operation::Initialize { id } => {
                crate::laws::law_counts_stay_exact(before, id, some_category, some_task);
            },
            Operation::Track { id, category } => {
                crate::laws::law_counts_stay_exact(before, id, category, some_task);
            },
            Operation::Write { id, task } => {
                crate::laws::law_counts_stay_exact(before, id, some_category, task);
            },
            _ => {},
        }
    }
}

/// A snapshot is being written exactly from when it is started until it is ended: no other
/// operation changes that.
pub proof fn law_snapshots_last_from_start_to_end(storage: StorageView, operations: Seq<Operation>)
    requires
        !storage.snapshot_mode,
    ensures
        Run::of(storage).after_all(operations).storage.snapshot_mode <==> exists|i: int|
            {
                &&& 0 <= i < operations.len()
                &&& #[trigger] operations[i] is Start
                &&& forall|j: int| i < j < operations.len() ==> !(#[trigger] operations[j] is End)
            },
    decreases operations.len(),
{
    if operations.len() > 0 {
        let earlier = operations.drop_last();
        let last = operations.last();
        law_snapshots_last_from_start_to_end(storage, earlier);
        let before = Run::of(storage).after_all(earlier).storage.snapshot_mode;
        let after = Run::of(storage).after_all(operations).storage.snapshot_mode;
        assert(operations[operations.len() - 1] == last);
        if after && !(last is Start) {
            let i = choose|i: int|
                {
                    &&& 0 <= i < earlier.len()
                    &&& #[trigger] earlier[i] is Start
                    &&& forall|j: int| i < j < earlier.len() ==> !(#[trigger] earlier[j] is End)
                };
            assert(operations[i] is Start);
            assert forall|j: int| i < j < operations.len() implies !(
            #[trigger] operations[j] is End) by {
                assert(j < earlier.len() ==> earlier[j] == operations[j]);
            }
        }
        if !after {
            assert forall|i: int|
                {
                    &&& 0 <= i < operations.len()
                    &&& #[trigger] operations[i] is Start
                } implies exists|j: int| i < j < operations.len() && #[trigger] operations[j] is End by {
                if !(last is End) {
                    assert(earlier[i] is Start);
                    let j = choose|j: int| i < j < earlier.len() && #[trigger] earlier[j] is End;
                    assert(operations[j] is End);
                }
            }
        }
    }
}

/// A snapshot persists every task that was modified when it was started, in the state that the task
/// was in then: what is handed out by the scan and what is encoded after it is that state, and
/// once no task is left to be encoded, none of them is left.
pub proof fn law_snapshots_persist_the_storage_at_their_start(run: Run, id: u32)
    requires
        run.in_order(),
        run.storage.snapshot_mode,
    ensures
        !run.scanned && run.storage.hands_out_copy(id) ==> run.unsaved.contains(id)
            && run.storage.snapshots[id]->0.snapshot_copy() == run.start.tasks[id].snapshot_copy(),
        run.scanned && run.pending.contains(id) ==> run.storage.encoded(id) is Some
            && run.storage.encoded(id)->0.snapshot_copy() == run.start.tasks[id].snapshot_copy(),
        !run.scanned && run.storage.hands_out_copy(id) ==> {
            &&& run.storage.snapshots[id]->0.meta == run.start.tasks[id].meta
            &&& run.storage.snapshots[id]->0.data == run.start.tasks[id].data
            &&& run.storage.snapshots[id]->0.flags.meta_modified == run.start.tasks[id].flags.meta_modified
            &&& run.storage.snapshots[id]->0.flags.data_modified == run.start.tasks[id].flags.data_modified
            &&& run.storage.snapshots[id]->0.flags.new_task == run.start.tasks[id].flags.new_task
        },
        run.scanned && run.pending.contains(id) ==> {
            &&& run.storage.encoded(id)->0.meta == run.start.tasks[id].meta
            &&& run.storage.encoded(id)->0.data == run.start.tasks[id].data
            &&& run.storage.encoded(id)->0.flags.meta_modified == run.start.tasks[id].flags.meta_modified
            &&& run.storage.encoded(id)->0.flags.data_modified == run.start.tasks[id].flags.data_modified
            &&& run.storage.encoded(id)->0.flags.new_task == run.start.tasks[id].flags.new_task
        },
        run.scanned && run.pending == Set::<u32>::empty() ==> run.unsaved == Set::<u32>::empty(),
{
    assert(run.storage.consistent_at(id));
    if !run.scanned && run.storage.hands_out_copy(id) {
        assert(run.storage.is_modified(id));
        assert(run.unsaved.contains(id));
    }
    if run.pending.contains(id) && run.scanned {
        assert(run.unsaved.contains(id));
    }
}

/// Every copy that a scan hands out holds what its task held when the snapshot was started.
pub proof fn law_copies_handed_out_are_of_the_start(
    run: Run,
    found: Seq<ShardView>,
    shards: Seq<int>,
    i: int,
    j: int,
)
    requires
        run.in_order(),
        run.storage.snapshot_mode,
        !run.scanned,
        crate::model::found_in_shards(found, shards, run.storage),
        0 <= i < found.len(),
        0 <= j < found[i].direct.len(),
    ensures
        ({
            let (id, copy) = found[i].direct[j];
            let task = run.start.tasks[id];
            &&& run.unsaved.contains(id)
            &&& copy.meta == task.meta
            &&& copy.data == task.data
            &&& copy.flags.meta_modified == task.flags.meta_modified
            &&& copy.flags.data_modified == task.flags.data_modified
            &&& copy.flags.new_task == task.flags.new_task
        }),
{
    assert(found[i].found_in(run.storage, shards[i]));
    law_snapshots_persist_the_storage_at_their_start(run, found[i].direct[j].0);
}

/// Between two snapshots, once all tasks of the first were encoded, every modified task is counted
/// in its shard, so that the next snapshot is known to have something to persist and skips no
/// modified task.
pub proof fn law_no_modification_is_lost(run: Run, id: u32)
    requires
        run.in_order(),
        !run.storage.snapshot_mode,
        run.pending == Set::<u32>::empty(),
        run.storage.is_modified(id),
    ensures
        run.storage.is_scanned(id),
        exists|shard: int|
            0 <= shard < run.storage.counts.len() && #[trigger] run.storage.counts[shard] > 0,
{
    crate::laws::law_no_modified_task_is_skipped(run.storage, id);
}

} // verus!
