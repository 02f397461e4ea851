//! The storage of all tasks.
use crate::category::{SpecificTaskDataCategory, TaskDataCategory};
use crate::id_list::TaskIdList;
use crate::maps::{
    clear_snapshots, clear_tasks, determine_task_shard, drain_snapshot_shard, hash_task_id,
    insert_snapshot, insert_task_if_absent, list_task_flags, new_snapshot_map, new_task_map,
    remove_snapshot, shrink_empty_snapshot_shard, snapshot_shard_amount, snapshot_shard_capacity,
    swap_task, take_snapshot_copy, task_shard_amount, view_task, SnapshotMap, TaskMap,
};
use crate::model::StorageView;
use crate::scratch::SnapshotGuard;
use crate::snapshot::SnapshotShard;
use crate::task::{
    SnapshotItem, TaskFlags, TaskId, TaskStorage, TaskView, TurboBincodeBuffer,
};
use vstd::prelude::*;

verus! {

/// The contents of a copy that is kept for a snapshot.
pub open spec fn copy_view(copy: Option<Box<TaskStorage>>) -> Option<TaskView> {
    match copy {
        Some(task) => Some((*task)@),
        None => None,
    }
}

/// Whether an identifier is among the first `n` of a list.
spec fn is_listed(list: Seq<(u32, TaskFlags)>, n: int, id: u32) -> bool {
    exists|i: int| 0 <= i < n && #[trigger] list[i].0 == id
}

/// Whether two lists split some identifiers by what is kept of them: those with a copy, together
/// with that, and those without an entry.
spec fn splits_ids(
    ids: Seq<u32>,
    snapshots: Map<u32, Option<TaskView>>,
    direct: Seq<(u32, TaskView)>,
    modified: Seq<u32>,
) -> bool {
    &&& forall|i: int, j: int| 0 <= i < j < direct.len() ==> direct[i].0 != direct[j].0
    &&& forall|i: int|
        #![trigger direct[i]]
        0 <= i < direct.len() ==> ids.contains(direct[i].0) && snapshots.contains_key(direct[i].0)
            && snapshots[direct[i].0] == Some(direct[i].1)
    &&& forall|id: u32| #[trigger]
        ids.contains(id) && snapshots.contains_key(id) && snapshots[id] is Some ==> exists|i: int|
            0 <= i < direct.len() && #[trigger] direct[i].0 == id
    &&& modified.no_duplicates()
    &&& forall|id: u32| #[trigger]
        modified.contains(id) <==> ids.contains(id) && !snapshots.contains_key(id)
}

/// What is kept of tasks, without the copies of those that have some identifiers.
spec fn without_copies(snapshots: Map<u32, Option<TaskView>>, ids: Seq<u32>) -> Map<
    u32,
    Option<TaskView>,
> {
    snapshots.map_entries(
        |id: u32, copy: Option<TaskView>|
            if ids.contains(id) {
                None
            } else {
                copy
            },
    )
}

/// One more identifier is split.
proof fn lemma_splits_push(
    ids: Seq<u32>,
    snapshots: Map<u32, Option<TaskView>>,
    direct: Seq<(u32, TaskView)>,
    modified: Seq<u32>,
    id: u32,
    more_direct: Seq<(u32, TaskView)>,
    more_modified: Seq<u32>,
)
    requires
        splits_ids(ids, snapshots, direct, modified),
        !ids.contains(id),
        more_direct == if snapshots.contains_key(id) && snapshots[id] is Some {
            direct.push((id, snapshots[id]->0))
        } else {
            direct
        },
        more_modified == if snapshots.contains_key(id) {
            modified
        } else {
            modified.push(id)
        },
    ensures
        splits_ids(ids.push(id), snapshots, more_direct, more_modified),
{
    let more = ids.push(id);
    assert forall|other: u32| #[trigger] more.contains(other) <==> ids.contains(other) || other
        == id by {
        ids.lemma_push_to_set_commute(id);
        assert(more.to_set().contains(other) <==> ids.to_set().insert(id).contains(other));
    }
    if !snapshots.contains_key(id) {
        assert(!modified.contains(id));
        assert forall|other: u32| #[trigger] more_modified.contains(other) <==> modified.contains(
            other,
        ) || other == id by {
            modified.lemma_push_to_set_commute(id);
            assert(more_modified.to_set().contains(other) <==> modified.to_set().insert(
                id,
            ).contains(other));
        }
    }
    assert forall|other: u32| #[trigger]
        more.contains(other) && snapshots.contains_key(other)
            && snapshots[other] is Some implies exists|i: int|
        0 <= i < more_direct.len() && #[trigger] more_direct[i].0 == other by {
        if other != id {
            let i = choose|i: int| 0 <= i < direct.len() && #[trigger] direct[i].0 == other;
            assert(more_direct[i].0 == other);
        } else {
            assert(more_direct.last().0 == other);
        }
    }
}

/// For how many tasks memory is set aside at first.
#[verifier::allow_in_spec]
pub fn map_capacity(small_preallocation: bool) -> (capacity: usize)
    ensures
        capacity == (if small_preallocation {
            1024usize
        } else {
            1048576usize
        }),
    returns
        (if small_preallocation {
            1024usize
        } else {
            1048576usize
        }),
{
    if small_preallocation {
        1024
    } else {
        1024 * 1024
    }
}

/// Whether an empty shard with room for this many entries takes up enough memory to give it back.
#[verifier::allow_in_spec]
pub fn is_worth_shrinking(capacity: usize) -> (worth: bool)
    ensures
        worth == (capacity > 1024),
    returns
        capacity > 1024,
{
    capacity > 1024
}

/// All tasks, with what is needed to write snapshots of those that are modified.
pub struct Storage {
    snapshot_mode: bool,
    /// For each shard of `map`, an approximate count of the modified tasks in it: how often a task
    /// in it became modified since the shard was last scanned. As long as no snapshot was started
    /// and the tasks were not dropped, it is their number. A scan sets it to zero, though the tasks that it found stay modified until
    /// they are encoded: those that never are, because the snapshot is given up, are not counted
    /// again. A snapshot skips the shards with a count of zero.
    shard_modified_counts: Vec<u64>,
    /// The tasks accessed while a snapshot is being written.
    /// - `Some`: the task was modified before the snapshot. Holds a copy of its state before the
    ///   snapshot, which is still to be persisted.
    /// - `None`: the task was first modified during the snapshot and is not part of it. It will be
    ///   part of the next one.
    snapshots: SnapshotMap,
    map: TaskMap,
}

impl View for Storage {
    type V = StorageView;

    closed spec fn view(&self) -> StorageView {
        StorageView {
            snapshot_mode: self.snapshot_mode,
            counts: self.shard_modified_counts@,
            snapshots: crate::maps::snapshot_map_contents(self.snapshots).map_values(
                |copy: Option<Box<TaskStorage>>| copy_view(copy),
            ),
            tasks: crate::maps::task_map_contents(self.map).map_values(
                |task: TaskStorage| task@,
            ),
            home: |id: u32| crate::maps::shard_of_task(id, crate::maps::task_map_shards(self.map)),
        }
    }
}

impl Storage {
    /// The storage is in order: there is a count for every shard, and every identifier belongs to
    /// one of the shards.
    pub open spec fn wf(&self) -> bool {
        &&& self.shards_agree()
        &&& self@.valid()
    }

    /// The maps and the counts have the same shards.
    pub closed spec fn shards_agree(&self) -> bool {
        &&& crate::maps::is_shard_amount(crate::maps::task_map_shards(self.map))
        &&& self.shard_modified_counts@.len() == crate::maps::task_map_shards(self.map)
        &&& crate::maps::snapshot_map_shards(self.snapshots) == crate::maps::task_map_shards(
            self.map,
        )
    }

    /// Every identifier belongs to the shard that its hash decides on.
    pub proof fn lemma_homes(&self)
        requires
            self.shards_agree(),
        ensures
            self@.valid(),
            forall|id: u32| #[trigger]
                (self@.home)(id) == crate::maps::shard_of_task(id, self@.counts.len()),
    {
        assert forall|id: u32| 0 <= #[trigger] (self@.home)(id) < self@.counts.len() by {
            crate::maps::lemma_shard_in_range(
                crate::maps::task_hash(id, usize::BITS),
                self@.counts.len(),
            );
        }
    }

    /// A storage without tasks, split into `shard_amount` shards. Memory is set aside for as many
    /// tasks as `map_capacity` says, and for no copies.
    pub fn new(shard_amount: usize, small_preallocation: bool) -> (storage: Storage)
        requires
            crate::maps::is_shard_amount(shard_amount as nat),
        ensures
            storage.wf(),
            !storage@.snapshot_mode,
            storage@.counts == Seq::new(shard_amount as nat, |shard: int| 0u64),
            storage@.snapshots.is_empty(),
            storage@.tasks.is_empty(),
    {
        let map = new_task_map(map_capacity(small_preallocation), shard_amount);
        let num_shards = task_shard_amount(&map);
        let mut shard_modified_counts: Vec<u64> = Vec::with_capacity(num_shards);
        for shard in 0..num_shards
            invariant
                shard_modified_counts@ == Seq::new(shard as nat, |shard: int| 0u64),
        {
            shard_modified_counts.push(0);
        }
        let storage = Storage {
            snapshot_mode: false,
            shard_modified_counts,
            snapshots: new_snapshot_map(shard_amount),
            map,
        };
        proof {
            storage.lemma_homes();
        }
        storage
    }

    /// The index of the shard in which a task is kept.
    pub fn shard_index(&self, key: &TaskId) -> (index: usize)
        requires
            self.wf(),
        ensures
            index == (self@.home)(key.id),
            index == crate::maps::shard_of_task(key.id, self@.counts.len()),
            index < self@.counts.len(),
    {
        assert((self@.home)(key.id) < self@.counts.len());
        let hash = hash_task_id(&self.map, key.id);
        determine_task_shard(&self.map, hash)
    }

    /// Whether a snapshot is being written. Modifications are then kept apart from those that the
    /// snapshot persists.
    pub fn snapshot_mode(&self) -> (mode: bool)
        ensures
            mode == self@.snapshot_mode,
    {
        self.snapshot_mode
    }

    /// Counts one more modified task in the shard of a task.
    pub(crate) fn count_modified(&mut self, id: u32)
        requires
            old(self).wf(),
        ensures
            final(self).wf(),
            final(self)@ == old(self)@.counted(id),
    {
        let shard_idx = self.shard_index(&TaskId { id });
        let count = self.shard_modified_counts[shard_idx].wrapping_add(1);
        self.shard_modified_counts[shard_idx] = count;
        assert(self@ =~= old(self)@.counted(id));
    }

    /// Lets a function read a task in its place.
    pub(crate) fn read_task<R, F: FnOnce(&TaskStorage) -> R>(&self, id: u32, work: F) -> (result: R)
        requires
            self@.tasks.contains_key(id),
            forall|task: &TaskStorage| #[trigger] call_requires(work, (task,)),
        ensures
            exists|task: TaskStorage|
                task@ == self@.tasks[id] && #[trigger] call_ensures(work, (&task,), result),
    {
        view_task(&self.map, id, work).unwrap()
    }

    /// Takes a task out of its place, in which it leaves a blank one.
    pub(crate) fn take_task(&mut self, id: u32) -> (task: Box<TaskStorage>)
        requires
            old(self).wf(),
            old(self)@.tasks.contains_key(id),
        ensures
            final(self).wf(),
            task@ == old(self)@.tasks[id],
            final(self)@ == old(self)@.with_task(id, TaskView::blank()),
    {
        let mut task = Box::new(TaskStorage::new());
        swap_task(&mut self.map, id, &mut task);
        assert(self@ =~= old(self)@.with_task(id, TaskView::blank()));
        task
    }

    /// Puts a task into the place of the one that is there.
    pub(crate) fn put_task(&mut self, id: u32, task: Box<TaskStorage>)
        requires
            old(self).wf(),
            old(self)@.tasks.contains_key(id),
        ensures
            final(self).wf(),
            final(self)@ == old(self)@.with_task(id, task@),
    {
        let mut task = task;
        let ghost contents = task@;
        swap_task(&mut self.map, id, &mut task);
        assert(self@ =~= old(self)@.with_task(id, contents));
    }

    /// Hands out the entry that is kept of a task accessed during the snapshot, and forgets it.
    pub(crate) fn forget_snapshot(&mut self, id: u32) -> (copy: Option<Option<Box<TaskStorage>>>)
        requires
            old(self).wf(),
        ensures
            final(self).wf(),
            old(self)@.snapshots.contains_key(id) ==> copy is Some && copy_view(copy->0)
                == old(self)@.snapshots[id],
            !old(self)@.snapshots.contains_key(id) ==> copy is None,
            final(self)@ == (StorageView {
                snapshots: old(self)@.snapshots.remove(id),
                ..old(self)@
            }),
    {
        let copy = remove_snapshot(&mut self.snapshots, id);
        assert(self@ =~= (StorageView {
            snapshots: old(self)@.snapshots.remove(id),
            ..old(self)@
        }));
        copy
    }

    /// Keeps note of a task that is accessed for the first time during the snapshot: of one that
    /// is part of the snapshot, with a copy of its state before the snapshot.
    fn remember_snapshot(&mut self, id: u32, task: &TaskStorage)
        requires
            old(self).wf(),
        ensures
            final(self).wf(),
            final(self)@ == (StorageView {
                snapshots: old(self)@.snapshots.insert(
                    id,
                    if task.flags.any_modified() {
                        Some(task@.snapshot_copy())
                    } else {
                        None
                    },
                ),
                ..old(self)@
            }),
    {
        let flags = task.flags;
        let copy = if flags.any_modified() {
            // The persistent fields, with the flags that say what of them is to be persisted.
            let mut snapshot = task.clone_snapshot();
            snapshot.flags.set_data_modified(flags.data_modified);
            snapshot.flags.set_meta_modified(flags.meta_modified);
            snapshot.flags.set_new_task(flags.new_task);
            Some(Box::new(snapshot))
        } else {
            None
        };
        assert(flags.any_modified() ==> copy_view(copy) == Some(task@.snapshot_copy()));
        insert_snapshot(&mut self.snapshots, id, copy);
        assert(self@ =~= (StorageView {
            snapshots: old(self)@.snapshots.insert(id, copy_view(copy)),
            ..old(self)@
        }));
    }

    /// Keeps track of a category of a task being about to be modified.
    fn track(&mut self, id: u32, category: SpecificTaskDataCategory)
        requires
            old(self).wf(),
            old(self)@.tasks.contains_key(id),
        ensures
            final(self).wf(),
            final(self)@ == old(self)@.touched(id, category),
    {
        let mut inner = self.take_task(id);
        let flags = inner.flags;
        if !flags.is_modified_during_snapshot(category) {
            match (self.snapshot_mode(), flags.is_modified(category)) {
                (false, false) => {
                    if !flags.any_modified() {
                        self.count_modified(id);
                    }
                    inner.flags.set_modified(category, true);
                },
                (false, true) => {
                    // Nothing is new about the task.
                },
                (true, _) => {
                    if !flags.any_modified_during_snapshot() {
                        self.remember_snapshot(id, &inner);
                    }
                    inner.flags.set_modified_during_snapshot(category, true);
                },
            }
        }
        self.put_task(id, inner);
        assert(self@ =~= old(self)@.touched(id, category));
    }

    /// Gives access to a task, which is there afterwards if it was not before.
    pub fn access_mut(&mut self, key: TaskId) -> (guard: StorageWriteGuard<'_>)
        requires
            old(self).wf(),
        ensures
            guard.wf(),
            guard.key == key,
            guard.storage@ == old(self)@.accessed(key.id),
            *final(guard.storage) == *final(self),
    {
        insert_task_if_absent(&mut self.map, key.id, Box::new(TaskStorage::new()));
        assert(self@ =~= old(self)@.accessed(key.id));
        StorageWriteGuard { storage: self, key }
    }

    /// Gives access to two tasks, which are there afterwards if they were not before.
    pub fn access_pair_mut(&mut self, key1: TaskId, key2: TaskId) -> (pair: StorageWritePair<'_>)
        requires
            old(self).wf(),
        ensures
            pair.wf(),
            pair.key1 == key1,
            pair.key2 == key2,
            pair.storage@ == old(self)@.accessed(key1.id).accessed(key2.id),
            *final(pair.storage) == *final(self),
    {
        insert_task_if_absent(&mut self.map, key1.id, Box::new(TaskStorage::new()));
        assert(self@ =~= old(self)@.accessed(key1.id));
        insert_task_if_absent(&mut self.map, key2.id, Box::new(TaskStorage::new()));
        assert(self@ =~= old(self)@.accessed(key1.id).accessed(key2.id));
        StorageWritePair { storage: self, key1, key2 }
    }

    /// Marks a newly allocated task as restored, so that the database is not asked for it, and as
    /// new, so that snapshots persist it.
    pub fn initialize_new_task(&mut self, task_id: TaskId)
        requires
            old(self).wf(),
        ensures
            final(self).wf(),
            final(self)@ == old(self)@.initialized(task_id.id),
    {
        let guard = self.access_mut(task_id);
        let mut task = guard.storage.take_task(task_id.id);
        task.flags.set_restored(TaskDataCategory::All);
        task.flags.set_new_task(true);
        guard.storage.put_task(task_id.id, task);
        assert(guard.storage@ =~= old(self)@.initialized(task_id.id));
    }

    /// Drops all tasks, and the copies of them that are kept for a snapshot.
    pub fn drop_contents(&mut self)
        requires
            old(self).wf(),
        ensures
            final(self).wf(),
            final(self)@ == old(self)@.emptied(),
    {
        clear_tasks(&mut self.map);
        clear_snapshots(&mut self.snapshots);
        assert(self@ =~= old(self)@.emptied());
    }

    /// Ends the snapshot: leaves snapshot mode, and turns what was modified during the snapshot
    /// into what is modified for the next one.
    pub fn end_snapshot(&mut self)
        requires
            old(self).wf(),
        ensures
            final(self).wf(),
            final(self)@ == old(self)@.ended(),
    {
        let ghost start = self@;
        // New modifications go to the flags directly from here on.
        self.snapshot_mode = false;
        let num_shards = snapshot_shard_amount(&self.snapshots);
        let ghost mut done = Set::<u32>::empty();
        proof {
            assert(start.promoted(done).tasks =~= start.tasks);
            assert(start.promoted(done).counts =~= start.counts) by {
                assert forall|shard: int| 0 <= shard < start.counts.len() implies start.promotable(
                    done,
                    shard,
                ).len() == 0 by {
                    assert(start.promotable(done, shard) =~= Set::<u32>::empty());
                }
            }
            assert(start.snapshots.remove_keys(done) =~= start.snapshots);
        }
        for shard in 0..num_shards
            invariant
                self.wf(),
                num_shards == self@.counts.len(),
                start.valid(),
                done.finite(),
                self@ == (StorageView {
                    snapshot_mode: false,
                    snapshots: start.snapshots.remove_keys(done),
                    ..start.promoted(done)
                }),
                forall|id: u32| #[trigger]
                    done.contains(id) <==> start.snapshots.contains_key(id) && (start.home)(id)
                        < shard,
        {
            let ids = self.drain_snapshots(shard);
            let ghost drained = done;
            assert(self@.snapshots =~= start.snapshots.remove_keys(drained + ids@.to_set()));
            assert(ids@.take(0) =~= Seq::<u32>::empty());
            assert(drained + ids@.take(0).to_set() =~= drained);
            for i in 0..ids.len()
                invariant
                    self.wf(),
                    num_shards == self@.counts.len(),
                    start.valid(),
                    done.finite(),
                    ids@.no_duplicates(),
                    done == drained + ids@.take(i as int).to_set(),
                    forall|id: u32| #[trigger] ids@.contains(id) ==> !drained.contains(id),
                    self@ == (StorageView {
                        snapshot_mode: false,
                        snapshots: start.snapshots.remove_keys(drained + ids@.to_set()),
                        ..start.promoted(done)
                    }),
            {
                let id = ids[i];
                proof {
                    assert(ids@.contains(id));
                    assert(!ids@.take(i as int).contains(id));
                    crate::model::lemma_promote_one(start, done, id);
                    assert(ids@.take(i + 1) =~= ids@.take(i as int).push(id));
                    ids@.take(i as int).lemma_push_to_set_commute(id);
                    done = done.insert(id);
                    assert(done =~= drained + ids@.take(i + 1).to_set());
                }
                self.promote_task(id);
            }
            proof {
                assert(ids@.take(ids@.len() as int) =~= ids@);
            }
            self.shrink_snapshots(shard);
        }
        proof {
            assert(done =~= start.snapshots.dom());
            assert(self@.snapshots =~= Map::empty());
        }
    }

    /// Starts a snapshot: enters snapshot mode, and says whether some shard has modified tasks.
    /// The guard stands for the snapshot until `end_snapshot` ends it.
    pub fn start_snapshot(&mut self) -> (started: (SnapshotGuard, bool))
        requires
            old(self).wf(),
        ensures
            final(self).wf(),
            final(self)@ == old(self)@.started(),
            started.0@.is_empty(),
            started.1 == exists|shard: int|
                0 <= shard < old(self)@.counts.len() && #[trigger] old(self)@.counts[shard] > 0,
    {
        self.snapshot_mode = true;
        // The counts stay: a scan resets those of the shards that it comes to.
        let mut has_modifications = false;
        for shard in 0..self.shard_modified_counts.len()
            invariant
                has_modifications == exists|i: int|
                    0 <= i < shard && #[trigger] self.shard_modified_counts@[i] > 0,
        {
            if self.shard_modified_counts[shard] > 0 {
                has_modifications = true;
            }
        }
        assert(self@ =~= old(self)@.started());
        (SnapshotGuard::new(), has_modifications)
    }

    /// The modified tasks of each shard in which one is counted.
    fn list_modified(&self) -> (ids: Vec<Vec<u32>>)
        requires
            self.wf(),
        ensures
            ids@.len() == self@.counts.len(),
            forall|shard: int|
                #![trigger ids@[shard]]
                0 <= shard < ids@.len() ==> {
                    &&& ids@[shard]@.no_duplicates()
                    &&& forall|id: u32| #[trigger]
                        ids@[shard]@.contains(id) <==> self@.is_scanned(id) && (self@.home)(id)
                            == shard
                },
    {
        let mut ids: Vec<Vec<u32>> = Vec::with_capacity(self.shard_modified_counts.len());
        let mut counted = false;
        for shard in 0..self.shard_modified_counts.len()
            invariant
                ids@.len() == shard,
                forall|i: int| 0 <= i < shard ==> (#[trigger] ids@[i])@.len() == 0,
                !counted ==> forall|i: int|
                    0 <= i < shard ==> #[trigger] self.shard_modified_counts@[i] == 0,
        {
            ids.push(Vec::new());
            if self.shard_modified_counts[shard] > 0 {
                counted = true;
            }
        }
        if !counted {
            assert forall|id: u32| !(#[trigger] self@.is_scanned(id)) by {
                assert(0 <= (self@.home)(id) < self@.counts.len());
            }
            return ids;
        }
        let list = list_task_flags(&self.map);
        for i in 0..list.len()
            invariant
                self.wf(),
                ids@.len() == self@.counts.len(),
                forall|i: int, j: int| 0 <= i < j < list@.len() ==> list@[i].0 != list@[j].0,
                forall|j: int|
                    0 <= j < list@.len() ==> self@.tasks.contains_key(#[trigger] list@[j].0)
                        && self@.tasks[list@[j].0].flags == list@[j].1,
                forall|shard: int|
                    #![trigger ids@[shard]]
                    0 <= shard < ids@.len() ==> {
                        &&& ids@[shard]@.no_duplicates()
                        &&& forall|id: u32| #[trigger]
                            ids@[shard]@.contains(id) <==> self@.is_scanned(id) && (self@.home)(id)
                                == shard && is_listed(list@, i as int, id)
                    },
        {
            let (id, flags) = list[i];
            let ghost before = ids@;
            if flags.any_modified() {
                let shard = self.shard_index(&TaskId { id });
                if self.shard_modified_counts[shard] > 0 {
                    ids[shard].push(id);
                }
            }
            proof {
                assert(self@.tasks.contains_key(list@[i as int].0));
                assert forall|other: u32|
                    is_listed(list@, i + 1, other) <==> is_listed(list@, i as int, other) || other
                        == id by {
                    if other == id {
                        assert(list@[i as int].0 == other);
                    }
                }
                assert(!is_listed(list@, i as int, id));
                assert forall|shard: int|
                    #![trigger ids@[shard]]
                    0 <= shard < ids@.len() implies {
                    &&& ids@[shard]@.no_duplicates()
                    &&& forall|other: u32| #[trigger]
                        ids@[shard]@.contains(other) <==> self@.is_scanned(other) && (self@.home)(
                            other,
                        ) == shard && is_listed(list@, i + 1, other)
                } by {
                    if self@.is_scanned(id) && (self@.home)(id) == shard {
                        assert(!before[shard]@.contains(id));
                        assert(ids@[shard]@ == before[shard]@.push(id));
                        before[shard]@.lemma_push_to_set_commute(id);
                        assert forall|other: u32| #[trigger]
                            ids@[shard]@.contains(other) <==> before[shard]@.contains(other)
                                || other == id by {
                            assert(ids@[shard]@.to_set().contains(other)
                                <==> before[shard]@.to_set().insert(id).contains(other));
                        }
                    } else {
                        assert(ids@[shard]@ == before[shard]@);
                    }
                }
            }
        }
        proof {
            assert forall|id: u32| self@.tasks.contains_key(id) implies is_listed(
                list@,
                list@.len() as int,
                id,
            ) by {
                assert(crate::maps::task_map_contents(self.map).contains_key(id));
            }
        }
        ids
    }

    /// Takes the copy out of the entry that is kept of a task accessed during the snapshot.
    fn take_copy(&mut self, id: u32) -> (copy: Option<Option<Box<TaskStorage>>>)
        requires
            old(self).wf(),
        ensures
            final(self).wf(),
            old(self)@.snapshots.contains_key(id) ==> copy is Some && copy_view(copy->0)
                == old(self)@.snapshots[id],
            !old(self)@.snapshots.contains_key(id) ==> copy is None,
            final(self)@ == (StorageView {
                snapshots: if copy is Some {
                    old(self)@.snapshots.insert(id, None)
                } else {
                    old(self)@.snapshots
                },
                ..old(self)@
            }),
    {
        let copy = take_snapshot_copy(&mut self.snapshots, id);
        assert(self@ =~= (StorageView {
            snapshots: if copy is Some {
                old(self)@.snapshots.insert(id, None)
            } else {
                old(self)@.snapshots
            },
            ..old(self)@
        }));
        copy
    }

    /// Scans one shard, of which the modified tasks are given. A shard in which no modified task
    /// is counted is skipped, and one with nothing to be encoded is left out.
    fn snapshot_shard<'l, P>(&mut self, shard_idx: usize, ids: &Vec<u32>, process: &'l P) -> (shard:
        Option<SnapshotShard<'l, P>>)
        requires
            old(self).wf(),
            shard_idx < old(self)@.counts.len(),
            ids@.no_duplicates(),
            forall|id: u32| #[trigger]
                ids@.contains(id) <==> old(self)@.is_scanned(id) && (old(self)@.home)(id)
                    == shard_idx,
        ensures
            final(self).wf(),
            final(self)@.snapshot_mode == old(self)@.snapshot_mode,
            final(self)@.counts == old(self)@.counts.update(shard_idx as int, 0),
            final(self)@.tasks == old(self)@.tasks,
            final(self)@.home == old(self)@.home,
            final(self)@.snapshots == without_copies(old(self)@.snapshots, ids@),
            match shard {
                Some(shard) => !shard@.is_empty() && shard@.found_in(old(self)@, shard_idx as int)
                    && shard.process() == *process,
                None => forall|id: u32|
                    #![trigger old(self)@.hands_out_copy(id)]
                    #![trigger old(self)@.hands_out_task(id)]
                    (old(self)@.home)(id) == shard_idx ==> !old(self)@.hands_out_copy(id)
                        && !old(self)@.hands_out_task(id),
            },
    {
        let ghost start = self@;
        if self.shard_modified_counts[shard_idx] == 0 {
            assert(self@.counts =~= start.counts.update(shard_idx as int, 0));
            assert(self@.snapshots =~= without_copies(start.snapshots, ids@));
            return None;
        }
        // The count starts again: `end_snapshot` counts the tasks modified during the snapshot.
        self.shard_modified_counts[shard_idx] = 0;
        let mut direct_snapshots: Vec<(TaskId, Box<TaskStorage>)> = Vec::new();
        let mut modified = TaskIdList::new();
        let ghost scanned = StorageView { counts: start.counts.update(shard_idx as int, 0), ..start };
        proof {
            assert(self@ =~= scanned);
            assert(without_copies(start.snapshots, ids@.take(0)) =~= start.snapshots);
        }
        for i in 0..ids.len()
            invariant
                self.wf(),
                ids@.no_duplicates(),
                self@ == (StorageView {
                    snapshots: without_copies(start.snapshots, ids@.take(i as int)),
                    ..scanned
                }),
                splits_ids(
                    ids@.take(i as int),
                    start.snapshots,
                    crate::snapshot::copies_view(direct_snapshots@),
                    modified@,
                ),
        {
            let id = ids[i];
            let ghost before = self@;
            let ghost direct_before = crate::snapshot::copies_view(direct_snapshots@);
            let ghost modified_before = modified@;
            match self.take_copy(id) {
                Some(copy) => {
                    // The flags stay as they are: the task may hold modifications that the copy
                    // does not cover. It is up to `end_snapshot` to go on with it.
                    if let Some(snapshot) = copy {
                        direct_snapshots.push((TaskId { id }, snapshot));
                    }
                },
                None => {
                    modified.push(id);
                },
            }
            proof {
                assert(!ids@.take(i as int).contains(id));
                assert(ids@.take(i + 1) =~= ids@.take(i as int).push(id));
                let direct = crate::snapshot::copies_view(direct_snapshots@);
                if start.snapshots.contains_key(id) {
                    assert(before.snapshots[id] == start.snapshots[id]);
                    if start.snapshots[id] is Some {
                        assert(direct =~= direct_before.push((id, start.snapshots[id]->0)));
                    } else {
                        assert(direct =~= direct_before);
                    }
                }
                lemma_splits_push(
                    ids@.take(i as int),
                    start.snapshots,
                    direct_before,
                    modified_before,
                    id,
                    direct,
                    modified@,
                );
                assert(self@.snapshots =~= without_copies(start.snapshots, ids@.take(i + 1))) by {
                    assert forall|other: u32|
                        ids@.take(i + 1).contains(other) <==> ids@.take(i as int).contains(other)
                            || other == id by {
                        ids@.take(i as int).lemma_push_to_set_commute(id);
                        assert(ids@.take(i + 1).to_set().contains(other) <==> ids@.take(
                            i as int,
                        ).to_set().insert(id).contains(other));
                    }
                }
            }
        }
        proof {
            assert(ids@.take(ids@.len() as int) =~= ids@);
            let direct = crate::snapshot::copies_view(direct_snapshots@);
            assert forall|id: u32|
                (start.home)(id) == shard_idx && #[trigger] start.hands_out_copy(
                    id,
                ) implies exists|i: int| 0 <= i < direct.len() && #[trigger] direct[i].0 == id by {
                assert(ids@.contains(id));
            }
            assert forall|id: u32|
                (start.home)(id) == shard_idx && #[trigger] start.hands_out_task(
                    id,
                ) implies modified@.contains(id) by {
                assert(ids@.contains(id));
            }
        }
        if direct_snapshots.len() == 0 && modified.is_empty() {
            return None;
        }
        Some(SnapshotShard::new(direct_snapshots, modified, process))
    }

    /// Scans all shards for what the snapshot is to persist: of every modified task, the copy that
    /// is kept of it, or else the task itself. Shards with nothing to be encoded are left out;
    /// those returned may still yield nothing, if every task in them has an empty encoding.
    pub fn take_snapshot<'l, P>(&mut self, _guard: &SnapshotGuard, process: &'l P) -> (shards: Vec<
        SnapshotShard<'l, P>,
    >) where P: Fn(TaskId, &TaskStorage, TurboBincodeBuffer) -> (SnapshotItem, TurboBincodeBuffer)
        requires
            old(self).wf(),
        ensures
            final(self).wf(),
            final(self)@ == old(self)@.scanned(),
            exists|indices: Seq<int>| #[trigger]
                crate::model::found_in_shards(
                    crate::snapshot::shards_view(shards@),
                    indices,
                    old(self)@,
                ),
            forall|i: int|
                0 <= i < shards@.len() ==> (#[trigger] shards@[i]).process() == *process,
    {
        let ghost start = self@;
        let ids = self.list_modified();
        let num_shards = self.shard_modified_counts.len();
        let mut shards: Vec<SnapshotShard<'l, P>> = Vec::new();
        let ghost mut indices = Seq::<int>::empty();
        proof {
            assert(self@ =~= start.scanned_below(0));
        }
        for shard_idx in 0..num_shards
            invariant
                self.wf(),
                start.valid(),
                num_shards == start.counts.len(),
                ids@.len() == num_shards,
                forall|shard: int|
                    #![trigger ids@[shard]]
                    0 <= shard < ids@.len() ==> {
                        &&& ids@[shard]@.no_duplicates()
                        &&& forall|id: u32| #[trigger]
                            ids@[shard]@.contains(id) <==> start.is_scanned(id) && (start.home)(id)
                                == shard
                    },
                self@ == start.scanned_below(shard_idx as int),
                shards@.len() == indices.len(),
                forall|i: int, j: int| 0 <= i < j < indices.len() ==> indices[i] < indices[j],
                forall|i: int|
                    #![trigger shards@[i]]
                    #![trigger indices[i]]
                    0 <= i < shards@.len() ==> {
                        &&& 0 <= indices[i] < shard_idx
                        &&& !shards@[i]@.is_empty()
                        &&& shards@[i]@.found_in(start, indices[i])
                        &&& shards@[i].process() == *process
                    },
                forall|id: u32|
                    #![trigger start.hands_out_copy(id)]
                    #![trigger start.hands_out_task(id)]
                    (start.home)(id) < shard_idx && (start.hands_out_copy(id)
                        || start.hands_out_task(id)) ==> indices.contains((start.home)(id)),
        {
            let ghost shard = shard_idx as int;
            proof {
                crate::model::lemma_scan_in_order(start, shard);
            }
            let found = self.snapshot_shard(shard_idx, &ids[shard_idx], process);
            proof {
                assert(self@ =~= start.scanned_below(shard + 1));
                let before = indices;
                if found is Some {
                    indices = indices.push(shard);
                    assert(indices.last() == shard);
                }
                assert forall|id: u32|
                    #![trigger start.hands_out_copy(id)]
                    #![trigger start.hands_out_task(id)]
                    (start.home)(id) < shard + 1 && (start.hands_out_copy(id)
                        || start.hands_out_task(id)) implies indices.contains(
                    (start.home)(id),
                ) by {
                    if (start.home)(id) < shard {
                        let i = choose|i: int|
                            0 <= i < before.len() && before[i] == (start.home)(id);
                        assert(indices[i] == (start.home)(id));
                    }
                }
            }
            if let Some(found) = found {
                shards.push(found);
            }
        }
        proof {
            assert(crate::model::found_in_shards(
                crate::snapshot::shards_view(shards@),
                indices,
                start,
            ));
        }
        shards
    }

    /// Takes all entries out of one shard of those kept for the snapshot.
    fn drain_snapshots(&mut self, shard: usize) -> (ids: Vec<u32>)
        requires
            old(self).wf(),
            shard < old(self)@.counts.len(),
        ensures
            final(self).wf(),
            ids@.no_duplicates(),
            forall|id: u32| #[trigger]
                ids@.contains(id) <==> old(self)@.snapshots.contains_key(id) && (old(
                    self,
                )@.home)(id) == shard,
            final(self)@ == (StorageView {
                snapshots: old(self)@.snapshots.remove_keys(ids@.to_set()),
                ..old(self)@
            }),
    {
        let ids = drain_snapshot_shard(&mut self.snapshots, shard);
        assert(self@ =~= (StorageView {
            snapshots: old(self)@.snapshots.remove_keys(ids@.to_set()),
            ..old(self)@
        }));
        ids
    }

    /// Gives back the memory of a shard of those kept for the snapshot that holds nothing any more,
    /// where `is_worth_shrinking` says so of the room that the shard has. How much room that is, is
    /// up to how the shard was allocated and no part of what is known of the storage: whatever it
    /// is, the storage holds what it held.
    fn shrink_snapshots(&mut self, shard: usize)
        requires
            old(self).wf(),
            shard < old(self)@.counts.len(),
            forall|id: u32| #[trigger]
                old(self)@.snapshots.contains_key(id) ==> (old(self)@.home)(id) != shard,
        ensures
            final(self).wf(),
            final(self)@ == old(self)@,
    {
        if is_worth_shrinking(snapshot_shard_capacity(&self.snapshots, shard)) {
            assert forall|id: u32| #[trigger]
                crate::maps::snapshot_map_contents(self.snapshots).contains_key(
                    id,
                ) implies crate::maps::shard_of_task(
                id,
                crate::maps::snapshot_map_shards(self.snapshots),
            ) != shard by {
                assert(self@.snapshots.contains_key(id));
            }
            shrink_empty_snapshot_shard(&mut self.snapshots, shard);
            assert(self@ =~= old(self)@);
        }
    }

    /// Turns what was modified in a task during the snapshot into what is modified for the next
    /// one, and counts the task where there was something.
    fn promote_task(&mut self, id: u32)
        requires
            old(self).wf(),
        ensures
            final(self).wf(),
            !old(self)@.tasks.contains_key(id) ==> final(self)@ == old(self)@,
            old(self)@.tasks.contains_key(id) ==> ({
                let flags = old(self)@.tasks[id].flags;
                let counted = if flags.any_modified_during_snapshot() {
                    old(self)@.counted(id)
                } else {
                    old(self)@
                };
                final(self)@ == counted.with_flags(id, flags.promoted())
            }),
    {
        let mut inner = Box::new(TaskStorage::new());
        if swap_task(&mut self.map, id, &mut inner) {
            let ghost task = inner@;
            let promoted = inner.flags.promote();
            swap_task(&mut self.map, id, &mut inner);
            assert(self@ =~= old(self)@.with_flags(id, task.flags.promoted()));
            if promoted {
                self.count_modified(id);
            }
        } else {
            assert(self@ =~= old(self)@);
        }
    }
}

/// Access to one task of a storage.
pub struct StorageWriteGuard<'a> {
    pub storage: &'a mut Storage,
    pub key: TaskId,
}

impl<'a> StorageWriteGuard<'a> {
    /// The storage is in order, and the task is there.
    pub open spec fn wf(&self) -> bool {
        &&& self.storage.wf()
        &&& self.storage@.tasks.contains_key(self.key.id)
    }

    /// Keeps track of the task being about to be modified in a category. It is to be called before
    /// the modification, so that a snapshot that is being written can keep the state before it.
    /// The name of what is modified is for diagnostics.
    pub fn track_modification(&mut self, category: SpecificTaskDataCategory, _name: &str)
        requires
            old(self).wf(),
            !crate::task::is_transient_id(old(self).key.id),
        ensures
            final(self).wf(),
            final(self).key == old(self).key,
            final(self).storage@ == old(self).storage@.touched(old(self).key.id, category),
            *final(final(self).storage) == *final(old(self).storage),
    {
        self.track_modification_internal(category);
    }

    /// Keeps track of the task being about to be modified in a category.
    fn track_modification_internal(&mut self, category: SpecificTaskDataCategory)
        requires
            old(self).wf(),
            !crate::task::is_transient_id(old(self).key.id),
        ensures
            final(self).wf(),
            final(self).key == old(self).key,
            final(self).storage@ == old(self).storage@.touched(old(self).key.id, category),
            *final(final(self).storage) == *final(old(self).storage),
    {
        self.storage.track(self.key.id, category);
    }

    /// A copy of the task.
    pub fn load(&mut self) -> (task: TaskStorage)
        requires
            old(self).wf(),
        ensures
            final(self).wf(),
            final(self).key == old(self).key,
            final(self).storage@ == old(self).storage@,
            *final(final(self).storage) == *final(old(self).storage),
            task@ == old(self).storage@.tasks[old(self).key.id],
    {
        let inner = self.storage.take_task(self.key.id);
        let task = inner.copy();
        self.storage.put_task(self.key.id, inner);
        assert(self.storage@ =~= old(self).storage@);
        task
    }

    /// Replaces the task by another, and hands out the one that was there.
    pub fn store(&mut self, task: TaskStorage) -> (previous: TaskStorage)
        requires
            old(self).wf(),
        ensures
            final(self).wf(),
            final(self).key == old(self).key,
            final(self).storage@ == old(self).storage@.with_task(old(self).key.id, task@),
            *final(final(self).storage) == *final(old(self).storage),
            previous@ == old(self).storage@.tasks[old(self).key.id],
    {
        let inner = self.storage.take_task(self.key.id);
        self.storage.put_task(self.key.id, Box::new(task));
        assert(self.storage@ =~= old(self).storage@.with_task(old(self).key.id, task@));
        *inner
    }
}

/// Access to two tasks of a storage, one at a time.
pub struct StorageWritePair<'a> {
    pub storage: &'a mut Storage,
    pub key1: TaskId,
    pub key2: TaskId,
}

impl<'a> StorageWritePair<'a> {
    /// The storage is in order, and both tasks are there.
    pub open spec fn wf(&self) -> bool {
        &&& self.storage.wf()
        &&& self.storage@.tasks.contains_key(self.key1.id)
        &&& self.storage@.tasks.contains_key(self.key2.id)
    }

    /// Access to the first task.
    pub fn first(&mut self) -> (guard: StorageWriteGuard<'_>)
        requires
            old(self).wf(),
        ensures
            guard.wf(),
            guard.key == old(self).key1,
            *guard.storage == *old(self).storage,
            *final(guard.storage) == *final(self).storage,
            final(self).key1 == old(self).key1,
            final(self).key2 == old(self).key2,
            *final(final(self).storage) == *final(old(self).storage),
    {
        StorageWriteGuard { storage: self.storage, key: self.key1 }
    }

    /// Access to the second task.
    pub fn second(&mut self) -> (guard: StorageWriteGuard<'_>)
        requires
            old(self).wf(),
        ensures
            guard.wf(),
            guard.key == old(self).key2,
            *guard.storage == *old(self).storage,
            *final(guard.storage) == *final(self).storage,
            final(self).key1 == old(self).key1,
            final(self).key2 == old(self).key2,
            *final(final(self).storage) == *final(old(self).storage),
    {
        StorageWriteGuard { storage: self.storage, key: self.key2 }
    }
}

} // verus!
