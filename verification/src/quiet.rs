//! A whole snapshot during which no task is modified: from its start until every shard that a scan
//! found is gone through to its end, in whatever order.
use crate::model::{ShardView, StorageView};
use crate::snapshot::Visit;
use crate::task::{SnapshotItem, TaskId, TaskStorage, TaskView, TurboBincodeBuffer};
use vstd::prelude::*;

verus! {

/// A call of `next` on what goes through one of the shards: the visits that it makes, and what it
/// returns.
pub struct Call {
    pub shard: int,
    pub visits: Seq<Visit>,
    pub item: Option<SnapshotItem>,
}

/// A snapshot in the course of being written: the storage, and for each shard what is left to be
/// encoded of it and what the scratch buffer for it holds.
#[verifier::ext_equal]
pub struct Progress {
    pub storage: StorageView,
    pub left: Seq<ShardView>,
    pub buffers: Seq<Seq<u8>>,
}

impl Progress {
    /// Whether a call is one that `next` may make.
    pub open spec fn makes<P>(self, process: P, call: Call) -> bool where
        P: Fn(TaskId, &TaskStorage, TurboBincodeBuffer) -> (SnapshotItem, TurboBincodeBuffer),
     {
        &&& 0 <= call.shard < self.left.len() == self.buffers.len()
        &&& crate::snapshot::are_visits(
            call.visits,
            process,
            self.storage,
            self.left[call.shard],
            self.buffers[call.shard],
        )
        &&& crate::snapshot::yields(call.visits, self.left[call.shard], call.item)
    }

    /// The snapshot after some visits of a shard.
    pub open spec fn after_visits(self, shard: int, visits: Seq<Visit>) -> Progress {
        Progress {
            storage: crate::snapshot::storage_after(self.storage, self.left[shard], visits.len()),
            left: self.left.update(
                shard,
                crate::snapshot::shard_after(self.left[shard], visits.len()),
            ),
            buffers: self.buffers.update(
                shard,
                crate::snapshot::buffer_after(visits, self.buffers[shard]),
            ),
        }
    }

    /// The snapshot after a call of `next`.
    pub open spec fn after(self, call: Call) -> Progress {
        self.after_visits(call.shard, call.visits)
    }

    /// The snapshot after calls of `next`.
    pub open spec fn after_all(self, calls: Seq<Call>) -> Progress
        decreases calls.len(),
    {
        if calls.len() == 0 {
            self
        } else {
            self.after_all(calls.drop_last()).after(calls.last())
        }
    }

    /// Whether calls are ones that `next` may make, one after the other.
    pub open spec fn makes_all<P>(self, process: P, calls: Seq<Call>) -> bool where
        P: Fn(TaskId, &TaskStorage, TurboBincodeBuffer) -> (SnapshotItem, TurboBincodeBuffer),

        decreases calls.len(),
    {
        calls.len() == 0 || {
            &&& self.makes_all(process, calls.drop_last())
            &&& self.after_all(calls.drop_last()).makes(process, calls.last())
        }
    }

    /// Whether a task is left to be encoded.
    pub open spec fn is_left(self, id: u32) -> bool {
        exists|shard: int|
            0 <= shard < self.left.len() && #[trigger] self.left[shard].modified.contains(id)
    }
}

/// All visits that calls make.
pub open spec fn all_visits(calls: Seq<Call>) -> Seq<Visit>
    decreases calls.len(),
{
    if calls.len() == 0 {
        Seq::empty()
    } else {
        all_visits(calls.drop_last()) + calls.last().visits
    }
}

/// The items that calls return.
pub open spec fn returned_items(calls: Seq<Call>) -> Seq<SnapshotItem>
    decreases calls.len(),
{
    if calls.len() == 0 {
        Seq::empty()
    } else {
        match calls.last().item {
            Some(item) => returned_items(calls.drop_last()).push(item),
            None => returned_items(calls.drop_last()),
        }
    }
}

/// The items that come of visits and are not empty.
pub open spec fn written_items(visits: Seq<Visit>) -> Seq<SnapshotItem>
    decreases visits.len(),
{
    if visits.len() == 0 {
        Seq::empty()
    } else if visits.last().is_blank() {
        written_items(visits.drop_last())
    } else {
        written_items(visits.drop_last()).push(visits.last().item->0)
    }
}

/// Whether a task is visited.
pub open spec fn is_visited(visits: Seq<Visit>, id: u32) -> bool {
    exists|i: int| 0 <= i < visits.len() && #[trigger] visits[i].id == id
}

/// Whether a shard is gone through to its end.
pub open spec fn reach_the_end(calls: Seq<Call>, shard: int) -> bool {
    exists|i: int|
        0 <= i < calls.len() && (#[trigger] calls[i]).shard == shard && calls[i].item is None
}

/// Whether visits are of the modified tasks of a storage, once each and of what the storage holds
/// of them.
pub open spec fn are_of_modified_tasks(visits: Seq<Visit>, storage: StorageView) -> bool {
    &&& forall|i: int, j: int|
        0 <= i < j < visits.len() ==> (#[trigger] visits[i]).id != (#[trigger] visits[j]).id
    &&& forall|i: int|
        0 <= i < visits.len() ==> storage.is_modified((#[trigger] visits[i]).id)
            && visits[i].task == Some(storage.tasks[visits[i].id])
}

/// What holds in the course of a snapshot during which no task is modified: the tasks visited are
/// persisted and all others are as they were, each modified task is visited or left to be encoded,
/// and nothing is counted or kept note of.
#[verifier::opaque]
spec fn is_quiet(start: StorageView, now: Progress, visits: Seq<Visit>) -> bool {
    let storage = now.storage;
    &&& are_of_modified_tasks(visits, start)
    &&& storage.snapshot_mode
    &&& storage.snapshots.is_empty()
    &&& storage.home == start.home
    &&& storage.counts == Seq::new(start.counts.len(), |shard: int| 0u64)
    &&& storage.tasks.dom() == start.tasks.dom()
    &&& forall|id: u32| !(#[trigger] start.is_modified_during_snapshot(id))
    &&& forall|id: u32| #[trigger]
        start.tasks.contains_key(id) ==> storage.tasks[id] == if is_visited(visits, id) {
            TaskView { flags: start.tasks[id].flags.persisted(), ..start.tasks[id] }
        } else {
            start.tasks[id]
        }
    &&& forall|id: u32| #[trigger]
        start.is_modified(id) <==> now.is_left(id) || is_visited(visits, id)
    &&& forall|id: u32| !(now.is_left(id) && #[trigger] is_visited(visits, id))
    &&& forall|shard: int|
        #![trigger now.left[shard]]
        0 <= shard < now.left.len() ==> now.left[shard].direct.len() == 0
            && now.left[shard].modified.no_duplicates()
    &&& forall|i: int, j: int, id: u32|
        0 <= i < j < now.left.len() && #[trigger] now.left[i].modified.contains(id)
            ==> !(#[trigger] now.left[j].modified.contains(id))
}

/// A scan at the start of a snapshot finds the modified tasks, each in one shard.
proof fn lemma_starts_quiet(
    start: StorageView,
    found: Seq<ShardView>,
    shards: Seq<int>,
    buffers: Seq<Seq<u8>>,
)
    requires
        start.consistent(),
        !start.snapshot_mode,
        start.covered(Set::empty()),
        crate::model::found_in_shards(found, shards, start.started()),
    ensures
        is_quiet(
            start,
            Progress { storage: start.started().scanned(), left: found, buffers },
            Seq::empty(),
        ),
{
    reveal(is_quiet);
    let started = start.started();
    let storage = started.scanned();
    let now = Progress { storage, left: found, buffers };
    let none = Seq::<Visit>::empty();
    crate::laws::law_snapshot_starts_complete(start);
    assert forall|id: u32| !(#[trigger] start.snapshots.contains_key(id)) by {
        assert(start.consistent_at(id));
    }
    assert forall|id: u32| !(#[trigger] start.is_modified_during_snapshot(id)) by {
        assert(start.consistent_at(id));
    }
    assert(storage.snapshots =~= Map::empty());
    assert(storage.counts =~= Seq::new(start.counts.len(), |shard: int| 0u64));
    assert forall|shard: int|
        #![trigger now.left[shard]]
        0 <= shard < now.left.len() implies now.left[shard].direct.len() == 0
        && now.left[shard].modified.no_duplicates() by {
        assert(found[shard].found_in(started, shards[shard]));
        if found[shard].direct.len() > 0 {
            assert(started.hands_out_copy(found[shard].direct[0].0));
        }
    }
    assert forall|i: int, id: u32|
        0 <= i < found.len() && #[trigger] found[i].modified.contains(id) implies start.is_modified(
        id,
    ) && (start.home)(id) == shards[i] by {
        assert(found[i].found_in(started, shards[i]));
        assert(started.hands_out_task(id));
        assert(started.is_modified(id));
    }
    assert forall|id: u32| #[trigger] start.is_modified(id) implies now.is_left(id) by {
        assert(started.is_modified(id));
        assert(started.hands_out_task(id));
        let i = choose|i: int| 0 <= i < shards.len() && shards[i] == (start.home)(id);
        assert(found[i].found_in(started, shards[i]));
        assert(now.left[i].modified.contains(id));
    }
    assert forall|i: int, j: int, id: u32|
        0 <= i < j < now.left.len() && #[trigger] now.left[i].modified.contains(
            id,
        ) implies !(#[trigger] now.left[j].modified.contains(id)) by {
        assert(shards[i] < shards[j]);
    }
}

/// One more task is visited.
proof fn lemma_visit_quietly(
    start: StorageView,
    now: Progress,
    visits: Seq<Visit>,
    shard: int,
    next: Progress,
    visit: Visit,
)
    requires
        is_quiet(start, now, visits),
        0 <= shard < now.left.len(),
        now.left[shard].modified.len() > 0,
        visit.id == now.left[shard].modified.last(),
        visit.task == now.storage.encoded(visit.id),
        next.storage == now.storage.flushed(visit.id),
        next.left == now.left.update(
            shard,
            ShardView {
                direct: now.left[shard].direct,
                modified: now.left[shard].modified.drop_last(),
            },
        ),
    ensures
        is_quiet(start, next, visits.push(visit)),
{
    reveal(is_quiet);
    let more = visits.push(visit);
    let id = visit.id;
    let ids = now.left[shard].modified;
    let rest = ids.drop_last();
    assert(ids.contains(id)) by {
        assert(ids[ids.len() - 1] == id);
    }
    assert(now.is_left(id));
    assert(start.is_modified(id));
    assert(!is_visited(visits, id));
    assert(!start.is_modified_during_snapshot(id));
    assert(now.storage.tasks[id] == start.tasks[id]);
    assert forall|other: u32| #[trigger] is_visited(more, other) <==> is_visited(visits, other)
        || other == id by {
        if is_visited(visits, other) {
            let i = choose|i: int| 0 <= i < visits.len() && #[trigger] visits[i].id == other;
            assert(more[i].id == other);
        }
        assert(more[visits.len() as int].id == id);
    }
    assert forall|other: u32| rest.contains(other) <==> ids.contains(other) && other != id by {
        if ids.contains(other) && other != id {
            let i = choose|i: int| 0 <= i < ids.len() && ids[i] == other;
            assert(rest[i] == other);
        }
        if rest.contains(other) {
            let i = choose|i: int| 0 <= i < rest.len() && rest[i] == other;
            assert(ids[i] == other);
        }
    }
    assert(next.left[shard].modified == rest);
    assert forall|other: u32| #[trigger] next.is_left(other) <==> now.is_left(other) && other
        != id by {
        if next.is_left(other) {
            let i = choose|i: int|
                0 <= i < next.left.len() && #[trigger] next.left[i].modified.contains(other);
            assert(now.left[i].modified.contains(other));
            if other == id {
                assert(i != shard);
                assert(now.left[shard].modified.contains(id));
            }
        }
        if now.is_left(other) && other != id {
            let i = choose|i: int|
                0 <= i < now.left.len() && #[trigger] now.left[i].modified.contains(other);
            assert(next.left[i].modified.contains(other));
        }
    }
    assert forall|i: int, j: int| 0 <= i < j < more.len() implies (#[trigger] more[i]).id != (
    #[trigger] more[j]).id by {
        assert(more[i] == visits[i]);
        assert(visits[i].id != id);
    }
    assert(next.storage.tasks.dom() =~= start.tasks.dom());
    assert forall|other: u32| #[trigger]
        start.tasks.contains_key(other) implies next.storage.tasks[other] == (if is_visited(
        more,
        other,
    ) {
        TaskView { flags: start.tasks[other].flags.persisted(), ..start.tasks[other] }
    } else {
        start.tasks[other]
    }) by {
        assert(is_visited(more, other) <==> is_visited(visits, other) || other == id);
    }
    assert forall|i: int, j: int, other: u32|
        0 <= i < j < next.left.len() && #[trigger] next.left[i].modified.contains(
            other,
        ) implies !(#[trigger] next.left[j].modified.contains(other)) by {
        assert(now.left[i].modified.contains(other));
        assert(next.left[j].modified.contains(other) ==> now.left[j].modified.contains(other));
    }
}

/// Some of the visits of a call are made.
proof fn lemma_call_quietly<P>(
    start: StorageView,
    now: Progress,
    visits: Seq<Visit>,
    process: P,
    call: Call,
    n: nat,
) where P: Fn(TaskId, &TaskStorage, TurboBincodeBuffer) -> (SnapshotItem, TurboBincodeBuffer)
    requires
        is_quiet(start, now, visits),
        now.makes(process, call),
        n <= call.visits.len(),
    ensures
        is_quiet(
            start,
            now.after_visits(call.shard, call.visits.take(n as int)),
            visits + call.visits.take(n as int),
        ),
    decreases n,
{
    let shard = now.left[call.shard];
    assert(shard.direct.len() == 0) by {
        reveal(is_quiet);
    }
    if n == 0 {
        assert(call.visits.take(0) =~= Seq::empty());
        assert(visits + call.visits.take(0) =~= visits);
        assert(crate::snapshot::shard_after(shard, 0) =~= shard);
        assert(now.after_visits(call.shard, call.visits.take(0)) =~= now);
    } else {
        let m = (n - 1) as nat;
        lemma_call_quietly(start, now, visits, process, call, m);
        let before = now.after_visits(call.shard, call.visits.take(m as int));
        let after = now.after_visits(call.shard, call.visits.take(n as int));
        let visit = call.visits[m as int];
        let left = crate::snapshot::shard_after(shard, m);
        assert(before.left[call.shard] == left);
        assert(left.modified.last() == shard.modified[shard.modified.len() - 1 - m]);
        assert((visit.id, visit.task) == crate::snapshot::visited_after(now.storage, shard, m));
        assert(crate::snapshot::shard_after(shard, n) =~= (ShardView {
            direct: left.direct,
            modified: left.modified.drop_last(),
        }));
        assert(after.left =~= before.left.update(
            call.shard,
            ShardView { direct: left.direct, modified: left.modified.drop_last() },
        ));
        lemma_visit_quietly(
            start,
            before,
            visits + call.visits.take(m as int),
            call.shard,
            after,
            visit,
        );
        assert((visits + call.visits.take(m as int)).push(visit) =~= visits + call.visits.take(
            n as int,
        ));
    }
}

/// A call of `next` keeps a snapshot quiet. A shard of which it reaches the end is empty then, and
/// those that were empty stay so.
proof fn lemma_call_stays_quiet<P>(
    start: StorageView,
    now: Progress,
    visits: Seq<Visit>,
    process: P,
    call: Call,
) where P: Fn(TaskId, &TaskStorage, TurboBincodeBuffer) -> (SnapshotItem, TurboBincodeBuffer)
    requires
        is_quiet(start, now, visits),
        now.makes(process, call),
    ensures
        is_quiet(start, now.after(call), visits + call.visits),
        now.after(call).left.len() == now.left.len(),
        call.item is None ==> now.after(call).left[call.shard].modified.len() == 0,
        forall|shard: int|
            0 <= shard < now.left.len() && now.left[shard].modified.len() == 0
                ==> #[trigger] now.after(call).left[shard].modified.len() == 0,
{
    lemma_call_quietly(start, now, visits, process, call, call.visits.len());
    assert(call.visits.take(call.visits.len() as int) =~= call.visits);
    assert(now.left[call.shard].direct.len() == 0) by {
        reveal(is_quiet);
    }
}

/// Calls of `next` keep a snapshot quiet, and a shard of which the end was reached is empty.
proof fn lemma_calls_stay_quiet<P>(
    start: StorageView,
    first: Progress,
    process: P,
    calls: Seq<Call>,
) where P: Fn(TaskId, &TaskStorage, TurboBincodeBuffer) -> (SnapshotItem, TurboBincodeBuffer)
    requires
        is_quiet(start, first, Seq::empty()),
        first.makes_all(process, calls),
    ensures
        is_quiet(start, first.after_all(calls), all_visits(calls)),
        first.after_all(calls).left.len() == first.left.len(),
        forall|i: int|
            0 <= i < calls.len() && (#[trigger] calls[i]).item is None ==> 0 <= calls[i].shard
                < first.left.len() && first.after_all(calls).left[calls[i].shard].modified.len()
                == 0,
    decreases calls.len(),
{
    if calls.len() > 0 {
        let earlier = calls.drop_last();
        let call = calls.last();
        lemma_calls_stay_quiet(start, first, process, earlier);
        lemma_call_stays_quiet(
            start,
            first.after_all(earlier),
            all_visits(earlier),
            process,
            call,
        );
        assert forall|i: int| 0 <= i < calls.len() && (#[trigger] calls[i]).item is None implies 0
            <= calls[i].shard < first.left.len() && first.after_all(
            calls,
        ).left[calls[i].shard].modified.len() == 0 by {
            if i < earlier.len() {
                assert(earlier[i] == calls[i]);
            }
        }
    }
}

/// What comes of the visits that calls make comes from the function that encodes tasks.
proof fn lemma_visits_are_by<P>(first: Progress, process: P, calls: Seq<Call>) where
    P: Fn(TaskId, &TaskStorage, TurboBincodeBuffer) -> (SnapshotItem, TurboBincodeBuffer),

    requires
        first.makes_all(process, calls),
    ensures
        forall|i: int|
            0 <= i < all_visits(calls).len() ==> (#[trigger] all_visits(calls)[i]).is_by(process),
    decreases calls.len(),
{
    if calls.len() > 0 {
        let earlier = all_visits(calls.drop_last());
        let last = calls.last().visits;
        lemma_visits_are_by(first, process, calls.drop_last());
        assert forall|i: int| 0 <= i < all_visits(calls).len() implies (#[trigger] all_visits(
            calls,
        )[i]).is_by(process) by {
            if i < earlier.len() {
                assert(all_visits(calls)[i] == earlier[i]);
            } else {
                assert(all_visits(calls)[i] == last[i - earlier.len()]);
            }
        }
    }
}

/// What calls return is what comes of their visits and is not empty.
proof fn lemma_items_are_returned<P>(first: Progress, process: P, calls: Seq<Call>) where
    P: Fn(TaskId, &TaskStorage, TurboBincodeBuffer) -> (SnapshotItem, TurboBincodeBuffer),

    requires
        first.makes_all(process, calls),
    ensures
        returned_items(calls) == written_items(all_visits(calls)),
    decreases calls.len(),
{
    if calls.len() > 0 {
        let earlier = calls.drop_last();
        let call = calls.last();
        lemma_items_are_returned(first, process, earlier);
        if call.item is Some {
            let blank = call.visits.drop_last();
            lemma_blank_visits(all_visits(earlier), blank);
            assert(all_visits(calls).drop_last() =~= all_visits(earlier) + blank);
            assert(all_visits(calls).last() == call.visits.last());
        } else {
            lemma_blank_visits(all_visits(earlier), call.visits);
        }
    }
}

/// Nothing is written for blank visits.
proof fn lemma_blank_visits(visits: Seq<Visit>, blank: Seq<Visit>)
    requires
        forall|i: int| 0 <= i < blank.len() ==> (#[trigger] blank[i]).is_blank(),
    ensures
        written_items(visits + blank) == written_items(visits),
    decreases blank.len(),
{
    if blank.len() == 0 {
        assert(visits + blank =~= visits);
    } else {
        lemma_blank_visits(visits, blank.drop_last());
        assert((visits + blank).drop_last() =~= visits + blank.drop_last());
        assert((visits + blank).last() == blank[blank.len() - 1]);
    }
}

/// Where no task is modified during a snapshot, and all shards that the scan found are gone through
/// to their end, in whatever order:
/// - each task that was modified when the snapshot was started is encoded exactly once, in the
///   state that it was in then, and no other task is;
/// - what is returned are the encodings that are not empty;
/// - no task is modified any more, all counts are zero, and the tasks are otherwise as they were;
/// - ending the snapshot changes nothing more.
pub proof fn law_quiet_snapshot_encodes_each_modified_task_once<P>(
    start: StorageView,
    found: Seq<ShardView>,
    shards: Seq<int>,
    buffers: Seq<Seq<u8>>,
    process: P,
    calls: Seq<Call>,
) where P: Fn(TaskId, &TaskStorage, TurboBincodeBuffer) -> (SnapshotItem, TurboBincodeBuffer)
    requires
        start.consistent(),
        !start.snapshot_mode,
        start.covered(Set::empty()),
        crate::model::found_in_shards(found, shards, start.started()),
        (Progress { storage: start.started().scanned(), left: found, buffers }).makes_all(
            process,
            calls,
        ),
        forall|shard: int| 0 <= shard < found.len() ==> #[trigger] reach_the_end(calls, shard),
    ensures
        ({
            let visits = all_visits(calls);
            let written = (Progress {
                storage: start.started().scanned(),
                left: found,
                buffers,
            }).after_all(calls).storage;
            &&& are_of_modified_tasks(visits, start)
            &&& forall|i: int, j: int|
                0 <= i < j < visits.len() ==> (#[trigger] visits[i]).id != (
                #[trigger] visits[j]).id
            &&& forall|i: int|
                0 <= i < visits.len() ==> {
                    let id = (#[trigger] visits[i]).id;
                    &&& start.tasks.contains_key(id)
                    &&& start.tasks[id].flags.meta_modified || start.tasks[id].flags.data_modified
                    &&& visits[i].task == Some(start.tasks[id])
                    &&& visits[i].item is Some
                    &&& exists|
                        held: TaskStorage,
                        given: TurboBincodeBuffer,
                        left: TurboBincodeBuffer,
                    |
                        #[trigger] call_ensures(
                            process,
                            (TaskId { id }, &held, given),
                            (visits[i].item->0, left),
                        ) && held@ == start.tasks[id]
                }
            &&& forall|id: u32| #[trigger]
                start.tasks.contains_key(id) && (start.tasks[id].flags.meta_modified
                    || start.tasks[id].flags.data_modified) ==> exists|i: int|
                    0 <= i < visits.len() && (#[trigger] visits[i]).id == id
            &&& forall|id: u32| #[trigger] start.is_modified(id) ==> is_visited(visits, id)
            &&& forall|i: int| 0 <= i < visits.len() ==> (#[trigger] visits[i]).is_by(process)
            &&& returned_items(calls) == written_items(visits)
            &&& written == (StorageView {
                snapshot_mode: true,
                counts: Seq::new(start.counts.len(), |shard: int| 0u64),
                snapshots: Map::empty(),
                tasks: start.tasks.map_values(
                    |task: TaskView|
                        if task.flags.any_modified() {
                            TaskView { flags: task.flags.persisted(), ..task }
                        } else {
                            task
                        },
                ),
                home: start.home,
            })
            &&& forall|id: u32| !(#[trigger] written.is_modified(id))
            &&& written.ended() == (StorageView { snapshot_mode: false, ..written })
        }),
{
    let first = Progress { storage: start.started().scanned(), left: found, buffers };
    let visits = all_visits(calls);
    let last = first.after_all(calls);
    let written = last.storage;
    lemma_starts_quiet(start, found, shards, buffers);
    lemma_calls_stay_quiet(start, first, process, calls);
    lemma_visits_are_by(first, process, calls);
    lemma_items_are_returned(first, process, calls);
    reveal(is_quiet);
    assert forall|id: u32| !(#[trigger] last.is_left(id)) by {
        if last.is_left(id) {
            let shard = choose|shard: int|
                0 <= shard < last.left.len() && #[trigger] last.left[shard].modified.contains(id);
            assert(reach_the_end(calls, shard));
            let i = choose|i: int|
                0 <= i < calls.len() && (#[trigger] calls[i]).shard == shard
                    && calls[i].item is None;
            assert(last.left[calls[i].shard].modified.len() == 0);
        }
    }
    assert forall|id: u32| #[trigger] start.is_modified(id) <==> is_visited(visits, id) by {}
    let tasks = start.tasks.map_values(
        |task: TaskView|
            if task.flags.any_modified() {
                TaskView { flags: task.flags.persisted(), ..task }
            } else {
                task
            },
    );
    assert(written.tasks =~= tasks) by {
        assert forall|id: u32| #[trigger] start.tasks.contains_key(id) implies written.tasks[id]
            == tasks[id] by {
            assert(start.is_modified(id) <==> is_visited(visits, id));
        }
    }
    assert(written.snapshots =~= Map::empty());
    assert forall|shard: int| written.promotable(written.snapshots.dom(), shard).len() == 0 by {
        assert(written.promotable(written.snapshots.dom(), shard) =~= Set::empty());
    }
    assert(written.ended() =~= (StorageView { snapshot_mode: false, ..written })) by {
        assert(written.promoted(written.snapshots.dom()).counts =~= written.counts);
        assert(written.promoted(written.snapshots.dom()).tasks =~= written.tasks);
    }
}

/// The visits that calls make of one shard.
pub open spec fn visits_of_shard(calls: Seq<Call>, shard: int) -> Seq<Visit>
    decreases calls.len(),
{
    if calls.len() == 0 {
        Seq::empty()
    } else if calls.last().shard == shard {
        visits_of_shard(calls.drop_last(), shard) + calls.last().visits
    } else {
        visits_of_shard(calls.drop_last(), shard)
    }
}

/// All tasks of a shard are encoded with one scratch buffer: what one encoding leaves in it is what
/// the next one finds, whichever calls of `next` they are made by.
pub proof fn law_scratch_buffer_is_handed_on<P>(
    first: Progress,
    process: P,
    calls: Seq<Call>,
    shard: int,
) where P: Fn(TaskId, &TaskStorage, TurboBincodeBuffer) -> (SnapshotItem, TurboBincodeBuffer)
    requires
        first.buffers.len() == first.left.len(),
        0 <= shard < first.left.len(),
        first.makes_all(process, calls),
    ensures
        ({
            let visits = visits_of_shard(calls, shard);
            &&& first.after_all(calls).buffers[shard] == crate::snapshot::buffer_after(
                visits,
                first.buffers[shard],
            )
            &&& forall|i: int|
                0 <= i < visits.len() ==> (#[trigger] visits[i]).before == (if i == 0 {
                    first.buffers[shard]
                } else {
                    visits[i - 1].after
                })
        }),
        first.after_all(calls).buffers.len() == first.buffers.len(),
        first.after_all(calls).left.len() == first.left.len(),
    decreases calls.len(),
{
    if calls.len() > 0 {
        let earlier = calls.drop_last();
        let call = calls.last();
        law_scratch_buffer_is_handed_on(first, process, earlier, shard);
        let now = first.after_all(earlier);
        assert(now.makes(process, call));
        if call.shard == shard {
            let some = visits_of_shard(earlier, shard);
            let visits = visits_of_shard(calls, shard);
            reveal(crate::snapshot::hand_on_buffer);
            assert forall|i: int| 0 <= i < visits.len() implies (#[trigger] visits[i]).before == (
            if i == 0 {
                first.buffers[shard]
            } else {
                visits[i - 1].after
            }) by {
                if i >= some.len() {
                    let j = i - some.len();
                    assert(visits[i] == call.visits[j]);
                    assert(j > 0 ==> visits[i - 1] == call.visits[j - 1]);
                }
            }
        }
    }
}

} // verus!
