//! Writing a snapshot: what is to be encoded of each shard, and its encoding one by one.
use crate::id_list::TaskIdList;
use crate::model::{ShardView, StorageView};
use crate::scratch::{ScratchBufferError, SnapshotGuard};
use crate::storage::Storage;
use crate::task::{SnapshotItem, TaskFlags, TaskId, TaskStorage, TaskView, TurboBincodeBuffer};
use vstd::prelude::*;

verus! {

/// The contents of a list of copies.
pub open spec fn copies_view(copies: Seq<(TaskId, Box<TaskStorage>)>) -> Seq<(u32, TaskView)> {
    copies.map_values(|copy: (TaskId, Box<TaskStorage>)| (copy.0.id, (*copy.1)@))
}

impl SnapshotGuard {
    /// Ends the snapshot that the guard stands for.
    pub fn finish(self, storage: &mut Storage)
        requires
            old(storage).wf(),
        ensures
            final(storage).wf(),
            final(storage)@ == old(storage)@.ended(),
    {
        storage.end_snapshot();
    }
}

/// What is to be encoded of one shard, and the function that encodes a task.
pub struct SnapshotShard<'l, P> {
    direct_snapshots: Vec<(TaskId, Box<TaskStorage>)>,
    modified: TaskIdList,
    process: &'l P,
}

impl<'l, P> View for SnapshotShard<'l, P> {
    type V = ShardView;

    closed spec fn view(&self) -> ShardView {
        ShardView { direct: copies_view(self.direct_snapshots@), modified: self.modified@ }
    }
}

/// What is to be encoded of some shards.
pub open spec fn shards_view<'l, P>(shards: Seq<SnapshotShard<'l, P>>) -> Seq<ShardView> {
    shards.map_values(|shard: SnapshotShard<'l, P>| shard@)
}

impl<'l, P> SnapshotShard<'l, P> {
    /// The function that encodes a task.
    pub closed spec fn process(&self) -> P {
        *self.process
    }

    /// A shard of which the copies and the tasks given are to be encoded.
    pub(crate) fn new(
        direct_snapshots: Vec<(TaskId, Box<TaskStorage>)>,
        modified: TaskIdList,
        process: &'l P,
    ) -> (shard: SnapshotShard<'l, P>)
        ensures
            shard@.direct == copies_view(direct_snapshots@),
            shard@.modified == modified@,
            shard.process() == *process,
    {
        SnapshotShard { direct_snapshots, modified, process }
    }

    /// Goes through what is to be encoded, with the scratch buffer of the calling thread. That
    /// must not be in use.
    pub fn into_iter(self, guard: &mut SnapshotGuard) -> (iter: Result<
        SnapshotShardIter<'l, P>,
        ScratchBufferError,
    >)
        ensures
            exists|thread: nat, buffer: Result<TurboBincodeBuffer, ScratchBufferError>| #[trigger]
                crate::scratch::takes_buffer(old(guard)@, thread, final(guard)@, buffer)
                    && match buffer {
                    Ok(buffer) => iter is Ok && iter->Ok_0@ == self@ && iter->Ok_0.process()
                        == self.process() && iter->Ok_0.buffer() == buffer@,
                    Err(error) => iter == Err::<SnapshotShardIter<'l, P>, _>(error),
                },
    {
        let buffer = guard.take_scratch_buffer();
        match buffer {
            Ok(buffer) => Ok(SnapshotShardIter { shard: self, buffer }),
            Err(error) => Err(error),
        }
    }
}

/// Whether a function may encode a task as an item, given what its scratch buffer holds before
/// and leaving it with what it holds after.
pub open spec fn is_encoding<P>(
    process: P,
    id: u32,
    task: TaskView,
    before: Seq<u8>,
    item: SnapshotItem,
    after: Seq<u8>,
) -> bool where
    P: Fn(TaskId, &TaskStorage, TurboBincodeBuffer) -> (SnapshotItem, TurboBincodeBuffer),
 {
    exists|held: TaskStorage, given: TurboBincodeBuffer, left: TurboBincodeBuffer|
        held@ == task && given@ == before && left@ == after && #[trigger] call_ensures(
            process,
            (TaskId { id }, &held, given),
            (item, left),
        )
}

/// One task of a shard is visited: what of it is encoded, and what comes of that.
pub struct Visit {
    pub id: u32,
    pub task: Option<TaskView>,
    pub before: Seq<u8>,
    pub item: Option<SnapshotItem>,
    pub after: Seq<u8>,
}

impl Visit {
    /// Nothing is to be written for the task.
    pub open spec fn is_blank(self) -> bool {
        self.item matches Some(item) ==> item.is_empty()
    }

    /// The item comes from the function that encodes tasks.
    pub open spec fn is_by<P>(self, process: P) -> bool where
        P: Fn(TaskId, &TaskStorage, TurboBincodeBuffer) -> (SnapshotItem, TurboBincodeBuffer),
     {
        match self.task {
            Some(task) => self.item is Some && is_encoding(
                process,
                self.id,
                task,
                self.before,
                self.item->0,
                self.after,
            ),
            None => self.item is None && self.after == self.before,
        }
    }
}

/// How many of the first `n` visits of a shard go beyond the copies that it holds.
pub open spec fn visits_of_tasks(shard: ShardView, n: nat) -> nat {
    if n <= shard.direct.len() {
        0
    } else {
        (n - shard.direct.len()) as nat
    }
}

/// What is left of a shard after `n` visits: the copies come first, then the tasks, each from the
/// end of their list on.
pub open spec fn shard_after(shard: ShardView, n: nat) -> ShardView {
    ShardView {
        direct: shard.direct.take(shard.direct.len() - (n - visits_of_tasks(shard, n))),
        modified: shard.modified.take(shard.modified.len() - visits_of_tasks(shard, n)),
    }
}

/// The storage after `n` visits of a shard.
pub open spec fn storage_after(storage: StorageView, shard: ShardView, n: nat) -> StorageView {
    storage.flushed_last(shard.modified, visits_of_tasks(shard, n))
}

/// The identifier of the task that comes after `n` visits of a shard, and what of it is encoded.
pub open spec fn visited_after(storage: StorageView, shard: ShardView, n: nat) -> (
    u32,
    Option<TaskView>,
) {
    if n < shard.direct.len() {
        let copy = shard.direct[shard.direct.len() - 1 - n];
        (copy.0, Some(copy.1))
    } else {
        let id = shard.modified[shard.modified.len() - 1 - visits_of_tasks(shard, n)];
        (id, storage_after(storage, shard, n).encoded(id))
    }
}

/// Whether these are the first visits of a shard.
pub open spec fn are_visits<P>(
    visits: Seq<Visit>,
    process: P,
    storage: StorageView,
    shard: ShardView,
    buffer: Seq<u8>,
) -> bool where
    P: Fn(TaskId, &TaskStorage, TurboBincodeBuffer) -> (SnapshotItem, TurboBincodeBuffer),
 {
    &&& visits.len() <= shard.direct.len() + shard.modified.len()
    &&& forall|i: int|
        #![trigger visits[i]]
        0 <= i < visits.len() ==> {
            &&& visits[i].is_by(process)
            &&& (visits[i].id, visits[i].task) == visited_after(storage, shard, i as nat)
        }
    &&& hand_on_buffer(visits, buffer)
}

/// Whether visits are made with one scratch buffer: each finds in it what the one before it left.
#[verifier::opaque]
pub open spec fn hand_on_buffer(visits: Seq<Visit>, buffer: Seq<u8>) -> bool {
    forall|i: int|
        0 <= i < visits.len() ==> (#[trigger] visits[i]).before == if i == 0 {
            buffer
        } else {
            visits[i - 1].after
        }
}

/// Whether these are the first visits of a list of copies, which are made from its end on.
pub open spec fn are_visits_of_copies<P>(
    visits: Seq<Visit>,
    process: P,
    copies: Seq<(u32, TaskView)>,
    buffer: Seq<u8>,
) -> bool where
    P: Fn(TaskId, &TaskStorage, TurboBincodeBuffer) -> (SnapshotItem, TurboBincodeBuffer),
 {
    &&& visits.len() <= copies.len()
    &&& forall|i: int|
        #![trigger visits[i]]
        0 <= i < visits.len() ==> {
            &&& visits[i].is_by(process)
            &&& visits[i].id == copies[copies.len() - 1 - i].0
            &&& visits[i].task == Some(copies[copies.len() - 1 - i].1)
        }
    &&& hand_on_buffer(visits, buffer)
}

/// What the scratch buffer holds after some visits.
pub open spec fn buffer_after(visits: Seq<Visit>, buffer: Seq<u8>) -> Seq<u8> {
    if visits.len() == 0 {
        buffer
    } else {
        visits.last().after
    }
}

/// Whether visits end with an item, or with nothing left to be visited: nothing is to be written
/// for any of the tasks before that.
pub open spec fn yields(visits: Seq<Visit>, shard: ShardView, item: Option<SnapshotItem>) -> bool {
    match item {
        Some(item) => {
            &&& visits.len() > 0
            &&& visits.last().item == Some(item)
            &&& !item.is_empty()
            &&& forall|i: int| 0 <= i < visits.len() - 1 ==> (#[trigger] visits[i]).is_blank()
        },
        None => {
            &&& visits.len() == shard.direct.len() + shard.modified.len()
            &&& forall|i: int| 0 <= i < visits.len() ==> (#[trigger] visits[i]).is_blank()
        },
    }
}

/// Whether all tasks that a shard lists can be encoded.
pub open spec fn is_ready_shard(storage: StorageView, shard: ShardView) -> bool {
    forall|i: int| 0 <= i < shard.modified.len() ==> storage.is_ready(#[trigger] shard.modified[i])
}

/// Whether every task that a shard lists can be encoded if it is reached, that is, if nothing is
/// to be written for any task before it.
pub open spec fn reaches_ready_tasks<P>(
    process: P,
    storage: StorageView,
    shard: ShardView,
    buffer: Seq<u8>,
) -> bool where
    P: Fn(TaskId, &TaskStorage, TurboBincodeBuffer) -> (SnapshotItem, TurboBincodeBuffer),
 {
    forall|visits: Seq<Visit>| #[trigger]
        are_visits(visits, process, storage, shard, buffer) && (forall|i: int|
            0 <= i < visits.len() ==> (#[trigger] visits[i]).is_blank()) && shard.direct.len()
            <= visits.len() < shard.direct.len() + shard.modified.len() ==> storage_after(
            storage,
            shard,
            visits.len(),
        ).is_ready(shard.modified[shard.modified.len() - 1 - visits_of_tasks(shard, visits.len())])
}

/// Encoding tasks of a shard leaves all tasks that it lists such that they can be encoded.
proof fn lemma_tasks_stay_ready(storage: StorageView, shard: ShardView, n: nat)
    requires
        is_ready_shard(storage, shard),
        n <= shard.modified.len(),
    ensures
        is_ready_shard(storage.flushed_last(shard.modified, n), shard),
    decreases n,
{
    if n > 0 {
        lemma_tasks_stay_ready(storage, shard, (n - 1) as nat);
        let last = shard.modified[shard.modified.len() - n];
        let before = storage.flushed_last(shard.modified, (n - 1) as nat);
        assert(before.is_ready(last));
    }
}

/// Where all tasks that a shard lists can be encoded, those that are left after some visits of it
/// still can be.
pub proof fn lemma_shard_stays_ready(storage: StorageView, shard: ShardView, n: nat)
    requires
        is_ready_shard(storage, shard),
        n <= shard.direct.len() + shard.modified.len(),
    ensures
        is_ready_shard(storage_after(storage, shard, n), shard_after(shard, n)),
{
    lemma_tasks_stay_ready(storage, shard, visits_of_tasks(shard, n));
    let after = shard_after(shard, n);
    assert forall|i: int| 0 <= i < after.modified.len() implies storage_after(
        storage,
        shard,
        n,
    ).is_ready(#[trigger] after.modified[i]) by {
        assert(after.modified[i] == shard.modified[i]);
    }
}

/// Where all tasks that a shard lists can be encoded, they can be when they are reached.
pub proof fn lemma_ready_tasks_are_reached<P>(
    process: P,
    storage: StorageView,
    shard: ShardView,
    buffer: Seq<u8>,
) where P: Fn(TaskId, &TaskStorage, TurboBincodeBuffer) -> (SnapshotItem, TurboBincodeBuffer)
    requires
        is_ready_shard(storage, shard),
    ensures
        reaches_ready_tasks(process, storage, shard, buffer),
{
    assert forall|visits: Seq<Visit>| #[trigger]
        are_visits(visits, process, storage, shard, buffer) && shard.direct.len() <= visits.len()
            < shard.direct.len() + shard.modified.len() implies storage_after(
        storage,
        shard,
        visits.len(),
    ).is_ready(shard.modified[shard.modified.len() - 1 - visits_of_tasks(shard, visits.len())]) by {
        lemma_tasks_stay_ready(storage, shard, visits_of_tasks(shard, visits.len()));
    }
}

/// Goes through what is to be encoded of one shard, with a scratch buffer that is returned when
/// that is done.
pub struct SnapshotShardIter<'l, P> {
    shard: SnapshotShard<'l, P>,
    buffer: TurboBincodeBuffer,
}

impl<'l, P> View for SnapshotShardIter<'l, P> {
    type V = ShardView;

    closed spec fn view(&self) -> ShardView {
        self.shard@
    }
}

impl<'l, P> SnapshotShardIter<'l, P> {
    /// The function that encodes a task.
    pub closed spec fn process(&self) -> P {
        self.shard.process()
    }

    /// What the scratch buffer holds.
    pub closed spec fn buffer(&self) -> Seq<u8> {
        self.buffer@
    }

    /// Returns the scratch buffer to the calling thread, which must be the one that took it.
    pub fn finish(self, guard: &mut SnapshotGuard) -> (accepted: Result<(), ScratchBufferError>)
        ensures
            exists|thread: nat, buffer: TurboBincodeBuffer| #[trigger]
                crate::scratch::returns_buffer(
                    old(guard)@,
                    thread,
                    final(guard)@,
                    buffer,
                    accepted,
                ) && buffer@ == self.buffer(),
    {
        guard.return_scratch_buffer(self.buffer)
    }
}

impl<'l, P> SnapshotShardIter<'l, P> where
    P: Fn(TaskId, &TaskStorage, TurboBincodeBuffer) -> (SnapshotItem, TurboBincodeBuffer),
 {
    /// Encodes a task.
    fn encode(&mut self, id: u32, task: &TaskStorage) -> (item: SnapshotItem)
        requires
            forall|task_id: TaskId, task: &TaskStorage, buffer: TurboBincodeBuffer| #[trigger]
                call_requires(old(self).process(), (task_id, task, buffer)),
        ensures
            final(self)@ == old(self)@,
            final(self).process() == old(self).process(),
            is_encoding(
                old(self).process(),
                id,
                task@,
                old(self).buffer(),
                item,
                final(self).buffer(),
            ),
    {
        let mut buffer: TurboBincodeBuffer = Vec::new();
        std::mem::swap(&mut buffer, &mut self.buffer);
        assert(call_requires(old(self).process(), (TaskId { id }, task, buffer)));
        let (item, left) = (self.shard.process)(TaskId { id }, task, buffer);
        self.buffer = left;
        item
    }

    /// Encodes a task of a storage, which stays in its place meanwhile.
    fn encode_in_place(&mut self, storage: &Storage, id: u32) -> (item: SnapshotItem)
        requires
            storage@.tasks.contains_key(id),
            forall|task_id: TaskId, task: &TaskStorage, buffer: TurboBincodeBuffer| #[trigger]
                call_requires(old(self).process(), (task_id, task, buffer)),
        ensures
            final(self)@ == old(self)@,
            final(self).process() == old(self).process(),
            is_encoding(
                old(self).process(),
                id,
                storage@.tasks[id],
                old(self).buffer(),
                item,
                final(self).buffer(),
            ),
    {
        let mut buffer: TurboBincodeBuffer = Vec::new();
        std::mem::swap(&mut buffer, &mut self.buffer);
        let ghost given = buffer;
        let process = self.shard.process;
        let task_id = TaskId { id };
        let work = move |task: &TaskStorage| -> (encoded: (SnapshotItem, TurboBincodeBuffer))
            requires
                call_requires(*process, (task_id, task, buffer)),
            ensures
                call_ensures(*process, (task_id, task, buffer), encoded),
        {
            process(task_id, task, buffer)
        };
        assert forall|task: &TaskStorage| #[trigger] call_requires(work, (task,)) by {
            assert(call_requires(old(self).process(), (task_id, task, given)));
        }
        let (item, left) = storage.read_task(id, work);
        self.buffer = left;
        item
    }

    /// Encodes a task that a scan left to be encoded. The task is persisted then; but where it was
    /// modified since the scan, the copy that is kept of it is encoded, and the task is modified
    /// for the next snapshot.
    fn flush(&mut self, storage: &mut Storage, id: u32) -> (item: Option<SnapshotItem>)
        requires
            old(storage).wf(),
            old(storage)@.is_ready(id),
            forall|task_id: TaskId, task: &TaskStorage, buffer: TurboBincodeBuffer| #[trigger]
                call_requires(old(self).process(), (task_id, task, buffer)),
        ensures
            final(self)@ == old(self)@,
            final(self).process() == old(self).process(),
            final(storage).wf(),
            final(storage)@ == old(storage)@.flushed(id),
            (Visit {
                id,
                task: old(storage)@.encoded(id),
                before: old(self).buffer(),
                item,
                after: final(self).buffer(),
            }).is_by(old(self).process()),
    {
        let look = |task: &TaskStorage| -> (flags: TaskFlags)
            ensures
                flags == task.flags,
        {
            task.flags
        };
        let flags = storage.read_task(id, look);
        if !flags.any_modified_during_snapshot() {
            let item = self.encode_in_place(storage, id);
            let mut inner = storage.take_task(id);
            inner.flags.set_data_modified(false);
            inner.flags.set_meta_modified(false);
            inner.flags.set_new_task(false);
            storage.put_task(id, inner);
            assert(storage@ =~= old(storage)@.flushed(id));
            Some(item)
        } else {
            // The task has diverged from what is about to be persisted.
            let mut inner = storage.take_task(id);
            inner.flags.promote();
            storage.put_task(id, inner);
            storage.count_modified(id);
            let snapshot = storage.forget_snapshot(id);
            assert(storage@ =~= old(storage)@.flushed(id));
            match snapshot {
                Some(Some(snapshot)) => Some(self.encode(id, &snapshot)),
                _ => None,
            }
        }
    }

    /// Whether there are tasks left to be encoded from what the storage holds.
    pub fn has_tasks(&self) -> (has: bool)
        ensures
            has == (self@.modified.len() > 0),
    {
        !self.shard.modified.is_empty()
    }

    /// Encodes one copy after the other, until one has an encoding that is not empty.
    pub fn next_copy(&mut self) -> (item: Option<SnapshotItem>)
        requires
            forall|task_id: TaskId, task: &TaskStorage, buffer: TurboBincodeBuffer| #[trigger]
                call_requires(old(self).process(), (task_id, task, buffer)),
        ensures
            final(self).process() == old(self).process(),
            exists|visits: Seq<Visit>|
                {
                    &&& #[trigger] are_visits_of_copies(
                        visits,
                        old(self).process(),
                        old(self)@.direct,
                        old(self).buffer(),
                    )
                    &&& yields(
                        visits,
                        ShardView { modified: Seq::empty(), ..old(self)@ },
                        item,
                    )
                    &&& final(self)@ == shard_after(old(self)@, visits.len())
                    &&& final(self).buffer() == buffer_after(visits, old(self).buffer())
                },
            item matches Some(item) ==> exists|
                id: u32,
                held: TaskStorage,
                given: TurboBincodeBuffer,
                left: TurboBincodeBuffer,
            |
                #[trigger] call_ensures(
                    old(self).process(),
                    (TaskId { id }, &held, given),
                    (item, left),
                ) && left@ == final(self).buffer(),
    {
        let ghost shard = self@;
        let ghost process = self.process();
        let ghost buffer = self.buffer();
        let ghost mut visits = Seq::<Visit>::empty();
        assert(self@ =~= shard_after(shard, 0));
        assert(hand_on_buffer(visits, buffer)) by {
            reveal(hand_on_buffer);
        }
        loop
            invariant
                shard == old(self)@,
                process == old(self).process(),
                buffer == old(self).buffer(),
                self.process() == process,
                forall|task_id: TaskId, task: &TaskStorage, buffer: TurboBincodeBuffer| #[trigger]
                    call_requires(process, (task_id, task, buffer)),
                visits.len() <= shard.direct.len(),
                self@ == shard_after(shard, visits.len()),
                are_visits_of_copies(visits, process, shard.direct, buffer),
                self.buffer() == buffer_after(visits, buffer),
                forall|i: int| 0 <= i < visits.len() ==> (#[trigger] visits[i]).is_blank(),
            decreases shard.direct.len() - visits.len(),
        {
            let ghost before = self.buffer();
            let ghost left = (shard.direct.len() - visits.len()) as nat;
            assert(copies_view(self.shard.direct_snapshots@) == shard.direct.take(left as int));
            assert(self.shard.direct_snapshots@.len() == left);
            match self.shard.direct_snapshots.pop() {
                None => {
                    return None;
                },
                Some((task_id, snapshot)) => {
                    assert(shard.direct.take(left as int).last() == (task_id.id, (*snapshot)@));
                    assert(self@ =~= shard_after(shard, visits.len() + 1));
                    let item = self.encode(task_id.id, &snapshot);
                    proof {
                        let visit = Visit {
                            id: task_id.id,
                            task: Some((*snapshot)@),
                            before,
                            item: Some(item),
                            after: self.buffer(),
                        };
                        lemma_visit_more_copies(visits, process, shard.direct, buffer, visit);
                        visits = visits.push(visit);
                    }
                    if !item.is_empty() {
                        return Some(item);
                    }
                },
            }
        }
    }

    /// Encodes one task after the other, the copies first, until one has an encoding that is not
    /// empty. The tasks reached must be there, and those modified since the scan kept note of.
    pub fn next(&mut self, storage: &mut Storage) -> (item: Option<SnapshotItem>)
        requires
            old(storage).wf(),
            is_ready_shard(old(storage)@, old(self)@) || reaches_ready_tasks(
                old(self).process(),
                old(storage)@,
                old(self)@,
                old(self).buffer(),
            ),
            forall|task_id: TaskId, task: &TaskStorage, buffer: TurboBincodeBuffer| #[trigger]
                call_requires(old(self).process(), (task_id, task, buffer)),
        ensures
            final(storage).wf(),
            final(self).process() == old(self).process(),
            exists|visits: Seq<Visit>|
                {
                    &&& #[trigger] are_visits(
                        visits,
                        old(self).process(),
                        old(storage)@,
                        old(self)@,
                        old(self).buffer(),
                    )
                    &&& yields(visits, old(self)@, item)
                    &&& final(self)@ == shard_after(old(self)@, visits.len())
                    &&& final(self).buffer() == buffer_after(visits, old(self).buffer())
                    &&& final(storage)@ == storage_after(
                        old(storage)@,
                        old(self)@,
                        visits.len(),
                    )
                },
            item matches Some(item) ==> exists|
                id: u32,
                held: TaskStorage,
                given: TurboBincodeBuffer,
                left: TurboBincodeBuffer,
            |
                #[trigger] call_ensures(
                    old(self).process(),
                    (TaskId { id }, &held, given),
                    (item, left),
                ) && left@ == final(self).buffer(),
    {
        let ghost shard = self@;
        let ghost process = self.process();
        let ghost buffer = self.buffer();
        let ghost start = storage@;
        proof {
            if is_ready_shard(start, shard) {
                lemma_ready_tasks_are_reached(process, start, shard, buffer);
            }
        }
        let item = self.next_copy();
        let ghost mut visits = choose|visits: Seq<Visit>|
            {
                &&& #[trigger] are_visits_of_copies(visits, process, shard.direct, buffer)
                &&& yields(visits, ShardView { modified: Seq::empty(), ..shard }, item)
                &&& self@ == shard_after(shard, visits.len())
                &&& self.buffer() == buffer_after(visits, buffer)
            };
        proof {
            assert(are_visits(visits, process, start, shard, buffer));
            assert(storage@ == storage_after(start, shard, visits.len()));
        }
        if item.is_some() {
            return item;
        }
        loop
            invariant
                shard == old(self)@,
                process == old(self).process(),
                buffer == old(self).buffer(),
                start == old(storage)@,
                storage@ == storage_after(start, shard, visits.len()),
                storage.wf(),
                self.process() == process,
                forall|task_id: TaskId, task: &TaskStorage, buffer: TurboBincodeBuffer| #[trigger]
                    call_requires(process, (task_id, task, buffer)),
                reaches_ready_tasks(process, start, shard, buffer),
                shard.direct.len() <= visits.len() <= shard.direct.len() + shard.modified.len(),
                self@ == shard_after(shard, visits.len()),
                are_visits(visits, process, start, shard, buffer),
                self.buffer() == buffer_after(visits, buffer),
                forall|i: int| 0 <= i < visits.len() ==> (#[trigger] visits[i]).is_blank(),
            decreases shard.direct.len() + shard.modified.len() - visits.len(),
        {
            let ghost before = self.buffer();
            let ghost now = storage@;
            match self.shard.modified.pop() {
                None => {
                    return None;
                },
                Some(id) => {
                    let ghost n = visits_of_tasks(shard, visits.len());
                    assert(id == shard.modified[shard.modified.len() - 1 - n]);
                    assert(self@ =~= shard_after(shard, visits.len() + 1));
                    proof {
                        lemma_reached_task_is_ready(visits, process, start, shard, buffer);
                    }
                    let item = self.flush(storage, id);
                    proof {
                        let visit = Visit {
                            id,
                            task: now.encoded(id),
                            before,
                            item,
                            after: self.buffer(),
                        };
                        lemma_visit_more(visits, process, start, shard, buffer, visit);
                        visits = visits.push(visit);
                        assert(visits_of_tasks(shard, visits.len()) == n + 1);
                        assert(storage@ == storage_after(start, shard, visits.len()));
                    }
                    if let Some(item) = item {
                        if !item.is_empty() {
                            return Some(item);
                        }
                    }
                },
            }
        }
    }
}

/// The task that is reached after blank visits can be encoded.
proof fn lemma_reached_task_is_ready<P>(
    visits: Seq<Visit>,
    process: P,
    storage: StorageView,
    shard: ShardView,
    buffer: Seq<u8>,
) where P: Fn(TaskId, &TaskStorage, TurboBincodeBuffer) -> (SnapshotItem, TurboBincodeBuffer)
    requires
        reaches_ready_tasks(process, storage, shard, buffer),
        are_visits(visits, process, storage, shard, buffer),
        forall|i: int| 0 <= i < visits.len() ==> (#[trigger] visits[i]).is_blank(),
        shard.direct.len() <= visits.len() < shard.direct.len() + shard.modified.len(),
    ensures
        storage_after(storage, shard, visits.len()).is_ready(
            shard.modified[shard.modified.len() - 1 - visits_of_tasks(shard, visits.len())],
        ),
{
}

/// One more visit is made with the scratch buffer.
proof fn lemma_hand_on_more(visits: Seq<Visit>, buffer: Seq<u8>, visit: Visit)
    requires
        hand_on_buffer(visits, buffer),
        visit.before == buffer_after(visits, buffer),
    ensures
        hand_on_buffer(visits.push(visit), buffer),
{
    reveal(hand_on_buffer);
}

/// One more copy is visited.
proof fn lemma_visit_more_copies<P>(
    visits: Seq<Visit>,
    process: P,
    copies: Seq<(u32, TaskView)>,
    buffer: Seq<u8>,
    visit: Visit,
) where P: Fn(TaskId, &TaskStorage, TurboBincodeBuffer) -> (SnapshotItem, TurboBincodeBuffer)
    requires
        are_visits_of_copies(visits, process, copies, buffer),
        visits.len() < copies.len(),
        visit.is_by(process),
        visit.id == copies[copies.len() - 1 - visits.len()].0,
        visit.task == Some(copies[copies.len() - 1 - visits.len()].1),
        visit.before == buffer_after(visits, buffer),
    ensures
        are_visits_of_copies(visits.push(visit), process, copies, buffer),
{
    let more = visits.push(visit);
    assert forall|i: int|
        #![trigger more[i]]
        0 <= i < more.len() implies {
        &&& more[i].is_by(process)
        &&& more[i].id == copies[copies.len() - 1 - i].0
        &&& more[i].task == Some(copies[copies.len() - 1 - i].1)
    } by {
        assert(i < visits.len() ==> more[i] == visits[i]);
    }
    lemma_hand_on_more(visits, buffer, visit);
}

/// One more visit is made.
proof fn lemma_visit_more<P>(
    visits: Seq<Visit>,
    process: P,
    storage: StorageView,
    shard: ShardView,
    buffer: Seq<u8>,
    visit: Visit,
) where P: Fn(TaskId, &TaskStorage, TurboBincodeBuffer) -> (SnapshotItem, TurboBincodeBuffer)
    requires
        are_visits(visits, process, storage, shard, buffer),
        visits.len() < shard.direct.len() + shard.modified.len(),
        visit.is_by(process),
        (visit.id, visit.task) == visited_after(storage, shard, visits.len()),
        visit.before == buffer_after(visits, buffer),
    ensures
        are_visits(visits.push(visit), process, storage, shard, buffer),
{
    let more = visits.push(visit);
    assert forall|i: int|
        #![trigger more[i]]
        0 <= i < more.len() implies {
        &&& more[i].is_by(process)
        &&& (more[i].id, more[i].task) == visited_after(storage, shard, i as nat)
    } by {
        assert(i < visits.len() ==> more[i] == visits[i]);
    }
    lemma_hand_on_more(visits, buffer, visit);
}

} // verus!
