use task_storage::category::SpecificTaskDataCategory;
use task_storage::scratch::{ScratchBufferError, ScratchBufferSlot};
use task_storage::storage::{is_worth_shrinking, map_capacity, Storage};
use task_storage::task::{SnapshotItem, TaskId, TaskStorage};

const META: SpecificTaskDataCategory = SpecificTaskDataCategory::Meta;
const DATA: SpecificTaskDataCategory = SpecificTaskDataCategory::Data;

fn id(id: u32) -> TaskId {
    TaskId { id }
}

/// Encodes the modified categories of a task by their bytes, and notes the task in the buffer.
fn encode(
    task_id: TaskId,
    task: &TaskStorage,
    mut buffer: Vec<u8>,
) -> (SnapshotItem, Vec<u8>) {
    buffer.push(task_id.id as u8);
    let meta = if task.flags.meta_modified { Some(task.meta.clone()) } else { None };
    let data = if task.flags.data_modified { Some(task.data.clone()) } else { None };
    (SnapshotItem { task_id, meta, data }, buffer)
}

/// Modifies a category of a task the way that it is meant to be done.
fn write(storage: &mut Storage, task: u32, category: SpecificTaskDataCategory, value: u8) {
    let mut guard = storage.access_mut(id(task));
    guard.track_modification(category, "value");
    let mut contents = guard.load();
    match category {
        SpecificTaskDataCategory::Meta => contents.meta = vec![value],
        SpecificTaskDataCategory::Data => contents.data = vec![value],
    }
    guard.store(contents);
}

fn load(storage: &mut Storage, task: u32) -> TaskStorage {
    storage.access_mut(id(task)).load()
}

/// The items of a snapshot as plain values, by identifier.
fn sorted(items: Vec<SnapshotItem>) -> Vec<(u32, Option<Vec<u8>>, Option<Vec<u8>>)> {
    let mut plain: Vec<_> =
        items.into_iter().map(|item| (item.task_id.id, item.meta, item.data)).collect();
    plain.sort();
    plain
}

/// Writes a snapshot while nothing else happens.
fn snapshot(storage: &mut Storage) -> Vec<(u32, Option<Vec<u8>>, Option<Vec<u8>>)> {
    let (mut guard, _) = storage.start_snapshot();
    let mut items = Vec::new();
    for shard in storage.take_snapshot(&guard, &encode) {
        let mut iter = shard.into_iter(&mut guard).unwrap_or_else(|_| panic!("buffer in use"));
        while let Some(item) = iter.next(storage) {
            items.push(item);
        }
        assert!(iter.finish(&mut guard).is_ok());
    }
    guard.finish(storage);
    sorted(items)
}

#[test]
fn new_storage_has_no_modifications() {
    for small in [true, false] {
        let mut storage = Storage::new(4, small);
        assert!(!storage.snapshot_mode());
        let (guard, has_modifications) = storage.start_snapshot();
        assert!(!has_modifications);
        assert!(storage.snapshot_mode());
        assert!(storage.take_snapshot(&guard, &encode).is_empty());
        guard.finish(&mut storage);
        assert!(!storage.snapshot_mode());
    }
}

#[test]
fn tasks_are_spread_over_the_shards() {
    let storage = Storage::new(4, true);
    let shards: Vec<usize> = (1..=8).map(|task| storage.shard_index(&id(task))).collect();
    assert_eq!(shards, vec![1, 2, 0, 1, 3, 0, 2, 3]);
    let storage = Storage::new(16, true);
    let shards: Vec<usize> = (1..=8).map(|task| storage.shard_index(&id(task))).collect();
    assert_eq!(shards, vec![5, 11, 1, 7, 12, 2, 8, 14]);
}

#[test]
fn accessed_task_is_blank_at_first() {
    let mut storage = Storage::new(2, true);
    let mut guard = storage.access_mut(id(3));
    assert_eq!(guard.key, id(3));
    let task = guard.load();
    assert!(task.meta.is_empty() && task.data.is_empty() && task.transient.is_empty());
    let mut changed = task.copy();
    changed.transient = vec![9];
    let previous = guard.store(changed);
    assert!(previous.transient.is_empty());
    assert_eq!(load(&mut storage, 3).transient, vec![9]);
    assert!(load(&mut storage, 4).transient.is_empty());
    // What is not kept track of is not persisted.
    assert!(snapshot(&mut storage).is_empty());
}

#[test]
fn pairs_give_access_to_both_tasks() {
    let mut storage = Storage::new(2, true);
    let mut pair = storage.access_pair_mut(id(1), id(2));
    pair.first().track_modification(META, "first");
    pair.second().track_modification(DATA, "second");
    assert!(load(&mut storage, 1).flags.meta_modified);
    assert!(!load(&mut storage, 1).flags.data_modified);
    assert!(load(&mut storage, 2).flags.data_modified);
    assert!(!load(&mut storage, 2).flags.meta_modified);
    let mut same = storage.access_pair_mut(id(5), id(5));
    same.first().track_modification(META, "one");
    assert!(same.second().load().flags.meta_modified);
}

#[test]
fn initialized_task_is_restored_and_new() {
    let mut storage = Storage::new(2, true);
    storage.initialize_new_task(id(7));
    let flags = load(&mut storage, 7).flags;
    assert!(flags.meta_restored && flags.data_restored && flags.new_task);
    assert!(!flags.any_modified());
    write(&mut storage, 7, META, 1);
    assert!(load(&mut storage, 7).flags.new_task);
    assert_eq!(snapshot(&mut storage), vec![(7, Some(vec![1]), None)]);
    let flags = load(&mut storage, 7).flags;
    assert!(flags.meta_restored && flags.data_restored && !flags.new_task);
}

#[test]
fn transient_task_can_be_initialized() {
    let mut storage = Storage::new(2, true);
    let transient = id(0x8000_0001);
    assert!(transient.is_transient());
    storage.initialize_new_task(transient);
    assert!(snapshot(&mut storage).is_empty());
}

#[test]
fn snapshot_persists_what_is_modified() {
    let mut storage = Storage::new(4, true);
    write(&mut storage, 1, META, 10);
    write(&mut storage, 2, DATA, 20);
    write(&mut storage, 3, META, 30);
    write(&mut storage, 3, DATA, 31);
    storage.access_mut(id(4));
    let (guard, has_modifications) = storage.start_snapshot();
    assert!(has_modifications);
    guard.finish(&mut storage);
    assert_eq!(
        snapshot(&mut storage),
        vec![
            (1, Some(vec![10]), None),
            (2, None, Some(vec![20])),
            (3, Some(vec![30]), Some(vec![31])),
        ]
    );
    for task in 1..=4 {
        assert!(!load(&mut storage, task).flags.any_modified());
    }
    let (guard, has_modifications) = storage.start_snapshot();
    assert!(!has_modifications);
    guard.finish(&mut storage);
    assert!(snapshot(&mut storage).is_empty());
}

#[test]
fn tracking_twice_changes_nothing_more() {
    let mut storage = Storage::new(2, true);
    write(&mut storage, 1, META, 1);
    let once = load(&mut storage, 1).flags;
    storage.access_mut(id(1)).track_modification(META, "again");
    assert_eq!(load(&mut storage, 1).flags, once);
    let (guard, _) = storage.start_snapshot();
    storage.access_mut(id(1)).track_modification(META, "during");
    let during = load(&mut storage, 1).flags;
    assert!(during.meta_modified_during_snapshot);
    storage.access_mut(id(1)).track_modification(META, "during again");
    assert_eq!(load(&mut storage, 1).flags, during);
    guard.finish(&mut storage);
}

#[test]
fn many_tasks_are_persisted_once_each() {
    let mut storage = Storage::new(8, true);
    for task in 1..=1000 {
        write(&mut storage, task, DATA, task as u8);
    }
    let items = snapshot(&mut storage);
    assert_eq!(items.len(), 1000);
    for (i, item) in items.iter().enumerate() {
        let task = i as u32 + 1;
        assert_eq!(*item, (task, None, Some(vec![task as u8])));
    }
    assert!(snapshot(&mut storage).is_empty());
}

#[test]
fn task_modified_before_the_scan_is_persisted_from_its_copy() {
    let mut storage = Storage::new(2, true);
    write(&mut storage, 1, META, 1);
    let (mut guard, _) = storage.start_snapshot();
    write(&mut storage, 1, META, 2);
    let shards = storage.take_snapshot(&guard, &encode);
    assert_eq!(shards.len(), 1);
    let mut items = Vec::new();
    for shard in shards {
        let mut iter = shard.into_iter(&mut guard).unwrap_or_else(|_| panic!("buffer in use"));
        while let Some(item) = iter.next(&mut storage) {
            items.push(item);
        }
        assert!(iter.finish(&mut guard).is_ok());
    }
    assert_eq!(sorted(items), vec![(1, Some(vec![1]), None)]);
    // The task itself is still modified.
    assert!(load(&mut storage, 1).flags.meta_modified);
    guard.finish(&mut storage);
    assert!(!load(&mut storage, 1).flags.any_modified_during_snapshot());
    assert_eq!(snapshot(&mut storage), vec![(1, Some(vec![2]), None)]);
    assert!(snapshot(&mut storage).is_empty());
}

#[test]
fn task_modified_after_the_scan_is_persisted_from_its_copy() {
    let mut storage = Storage::new(2, true);
    storage.initialize_new_task(id(1));
    write(&mut storage, 1, META, 1);
    let (mut guard, _) = storage.start_snapshot();
    let mut shards = storage.take_snapshot(&guard, &encode);
    write(&mut storage, 1, META, 2);
    let mut iter = match shards.pop() {
        Some(shard) => shard.into_iter(&mut guard).unwrap_or_else(|_| panic!("buffer in use")),
        None => panic!("nothing found"),
    };
    let item = iter.next(&mut storage).unwrap();
    assert_eq!(item.meta, Some(vec![1]));
    let flags = load(&mut storage, 1).flags;
    assert!(flags.meta_modified && flags.new_task && !flags.any_modified_during_snapshot());
    assert!(iter.next(&mut storage).is_none());
    assert!(iter.finish(&mut guard).is_ok());
    guard.finish(&mut storage);
    assert_eq!(snapshot(&mut storage), vec![(1, Some(vec![2]), None)]);
}

#[test]
fn task_first_modified_during_a_snapshot_is_left_to_the_next_one() {
    let mut storage = Storage::new(2, true);
    write(&mut storage, 1, META, 1);
    let (mut guard, _) = storage.start_snapshot();
    write(&mut storage, 2, DATA, 2);
    let mut items = Vec::new();
    for shard in storage.take_snapshot(&guard, &encode) {
        let mut iter = shard.into_iter(&mut guard).unwrap_or_else(|_| panic!("buffer in use"));
        while let Some(item) = iter.next(&mut storage) {
            items.push(item);
        }
        assert!(iter.finish(&mut guard).is_ok());
    }
    assert_eq!(sorted(items), vec![(1, Some(vec![1]), None)]);
    guard.finish(&mut storage);
    assert!(load(&mut storage, 2).flags.data_modified);
    assert_eq!(snapshot(&mut storage), vec![(2, None, Some(vec![2]))]);
}

#[test]
fn other_category_modified_during_a_snapshot_keeps_the_first_one() {
    let mut storage = Storage::new(2, true);
    write(&mut storage, 1, META, 1);
    let (mut guard, _) = storage.start_snapshot();
    write(&mut storage, 1, DATA, 2);
    write(&mut storage, 1, META, 3);
    let mut items = Vec::new();
    for shard in storage.take_snapshot(&guard, &encode) {
        let mut iter = shard.into_iter(&mut guard).unwrap_or_else(|_| panic!("buffer in use"));
        while let Some(item) = iter.next(&mut storage) {
            items.push(item);
        }
        assert!(iter.finish(&mut guard).is_ok());
    }
    assert_eq!(sorted(items), vec![(1, Some(vec![1]), None)]);
    guard.finish(&mut storage);
    assert_eq!(snapshot(&mut storage), vec![(1, Some(vec![3]), Some(vec![2]))]);
}

#[test]
fn snapshot_that_is_not_scanned_keeps_its_modifications() {
    let mut storage = Storage::new(2, true);
    write(&mut storage, 1, META, 1);
    let (guard, _) = storage.start_snapshot();
    write(&mut storage, 1, DATA, 2);
    guard.finish(&mut storage);
    assert_eq!(snapshot(&mut storage), vec![(1, Some(vec![1]), Some(vec![2]))]);
}

#[test]
fn small_preallocation_is_small() {
    assert_eq!(map_capacity(true), 1024);
    assert_eq!(map_capacity(false), 1_048_576);
}

#[test]
fn only_large_shards_are_worth_shrinking() {
    assert!(!is_worth_shrinking(0));
    assert!(!is_worth_shrinking(1024));
    assert!(is_worth_shrinking(1025));
    assert!(is_worth_shrinking(usize::MAX));
}

#[test]
fn large_shards_of_copies_are_given_back() {
    let mut storage = Storage::new(2, true);
    let (guard, _) = storage.start_snapshot();
    for task in 1..=5000 {
        storage.access_mut(id(task)).track_modification(DATA, "value");
    }
    guard.finish(&mut storage);
    assert_eq!(snapshot(&mut storage).len(), 5000);
    assert!(snapshot(&mut storage).is_empty());
}

#[test]
fn copies_are_encoded_without_the_storage() {
    let mut storage = Storage::new(2, true);
    let mut keys = (1..).map(id).filter(|key| storage.shard_index(key) == 0);
    let (copied, plain) = (keys.next().unwrap().id, keys.next().unwrap().id);
    drop(keys);
    write(&mut storage, copied, DATA, 1);
    write(&mut storage, plain, DATA, 2);
    let (mut guard, _) = storage.start_snapshot();
    write(&mut storage, copied, DATA, 3);
    let shard = storage.take_snapshot(&guard, &encode).pop().unwrap();
    let mut iter = shard.into_iter(&mut guard).unwrap_or_else(|_| panic!("buffer in use"));
    let copy = iter.next_copy().unwrap();
    assert_eq!((copy.task_id.id, copy.data), (copied, Some(vec![1])));
    assert!(iter.next_copy().is_none());
    assert!(iter.has_tasks());
    let item = iter.next(&mut storage).unwrap();
    assert_eq!((item.task_id.id, item.data), (plain, Some(vec![2])));
    assert!(!iter.has_tasks());
    assert!(iter.next(&mut storage).is_none());
    assert!(iter.finish(&mut guard).is_ok());
    guard.finish(&mut storage);
    assert_eq!(load(&mut storage, plain).data, vec![2]);
    assert_eq!(snapshot(&mut storage), vec![(copied, None, Some(vec![3]))]);
}

#[test]
fn copies_are_encoded_after_the_tasks_were_dropped() {
    let mut storage = Storage::new(2, true);
    write(&mut storage, 5, DATA, 1);
    let (mut guard, _) = storage.start_snapshot();
    write(&mut storage, 5, DATA, 2);
    let shard = storage.take_snapshot(&guard, &encode).pop().unwrap();
    let mut iter = shard.into_iter(&mut guard).unwrap_or_else(|_| panic!("buffer in use"));
    storage.drop_contents();
    let copy = iter.next(&mut storage).unwrap();
    assert_eq!((copy.task_id.id, copy.data), (5, Some(vec![1])));
    assert!(iter.next(&mut storage).is_none());
    assert!(iter.finish(&mut guard).is_ok());
    guard.finish(&mut storage);
}

#[test]
fn given_up_snapshot_leaves_its_tasks_uncounted() {
    let mut storage = Storage::new(4, true);
    write(&mut storage, 5, DATA, 1);
    let (guard, has_modifications) = storage.start_snapshot();
    assert!(has_modifications);
    assert_eq!(storage.take_snapshot(&guard, &encode).len(), 1);
    guard.finish(&mut storage);
    assert!(load(&mut storage, 5).flags.data_modified);
    let (guard, has_modifications) = storage.start_snapshot();
    assert!(!has_modifications);
    guard.finish(&mut storage);
}

#[test]
fn quiet_snapshot_leaves_nothing_modified() {
    let mut storage = Storage::new(4, true);
    let tasks: Vec<u32> = (1..=40).collect();
    for task in &tasks {
        write(&mut storage, *task, if task % 2 == 0 { META } else { DATA }, *task as u8);
    }
    let persisted: Vec<u32> = snapshot(&mut storage).iter().map(|item| item.0).collect();
    assert_eq!(persisted, tasks);
    for task in &tasks {
        assert!(!load(&mut storage, *task).flags.any_modified());
    }
    let (guard, has_modifications) = storage.start_snapshot();
    assert!(!has_modifications);
    guard.finish(&mut storage);
}

#[test]
fn empty_items_are_skipped() {
    let mut storage = Storage::new(2, true);
    for task in 1..=20 {
        write(&mut storage, task, META, task as u8);
    }
    let even_only = |task_id: TaskId, task: &TaskStorage, buffer: Vec<u8>| {
        let meta = if task_id.id % 2 == 0 { Some(task.meta.clone()) } else { None };
        (SnapshotItem { task_id, meta, data: None }, buffer)
    };
    let (mut guard, _) = storage.start_snapshot();
    let mut items = Vec::new();
    for shard in storage.take_snapshot(&guard, &even_only) {
        let mut iter = shard.into_iter(&mut guard).unwrap_or_else(|_| panic!("buffer in use"));
        while let Some(item) = iter.next(&mut storage) {
            items.push(item.task_id.id);
        }
        assert!(iter.finish(&mut guard).is_ok());
    }
    guard.finish(&mut storage);
    items.sort();
    assert_eq!(items, vec![2, 4, 6, 8, 10, 12, 14, 16, 18, 20]);
    for task in 1..=20 {
        assert!(!load(&mut storage, task).flags.any_modified());
    }
}

#[test]
fn dropped_contents_are_gone() {
    let mut storage = Storage::new(2, true);
    write(&mut storage, 1, META, 1);
    let (guard, _) = storage.start_snapshot();
    write(&mut storage, 1, META, 2);
    storage.drop_contents();
    assert!(storage.snapshot_mode());
    assert!(storage.take_snapshot(&guard, &encode).is_empty());
    guard.finish(&mut storage);
    assert!(load(&mut storage, 1).meta.is_empty());
    assert!(snapshot(&mut storage).is_empty());
}

#[test]
fn scratch_buffer_is_used_again() {
    let mut storage = Storage::new(2, true);
    let (mut guard, _) = storage.start_snapshot();
    let mut buffer = guard.take_scratch_buffer().unwrap();
    assert!(buffer.is_empty());
    assert!(buffer.capacity() >= 4096);
    buffer.push(42);
    assert_eq!(guard.return_scratch_buffer(buffer), Ok(()));
    assert_eq!(guard.take_scratch_buffer(), Ok(vec![42]));
    guard.finish(&mut storage);
}

#[test]
fn shards_share_the_scratch_buffer() {
    let mut storage = Storage::new(4, true);
    // These two tasks belong to different shards.
    write(&mut storage, 1, META, 1);
    write(&mut storage, 2, META, 2);
    let (mut guard, _) = storage.start_snapshot();
    let shards = storage.take_snapshot(&guard, &encode);
    assert_eq!(shards.len(), 2);
    for shard in shards {
        let mut iter = shard.into_iter(&mut guard).unwrap_or_else(|_| panic!("buffer in use"));
        while iter.next(&mut storage).is_some() {}
        assert!(iter.finish(&mut guard).is_ok());
    }
    assert_eq!(guard.take_scratch_buffer(), Ok(vec![1, 2]));
    guard.finish(&mut storage);
}

#[test]
fn scratch_buffer_cannot_be_taken_twice() {
    let mut storage = Storage::new(2, true);
    let (mut guard, _) = storage.start_snapshot();
    assert!(guard.take_scratch_buffer().is_ok());
    assert_eq!(guard.take_scratch_buffer(), Err(ScratchBufferError::TakenTwice));
    guard.finish(&mut storage);
}

#[test]
fn two_iterators_of_a_thread_need_two_buffers() {
    let mut storage = Storage::new(4, true);
    write(&mut storage, 1, META, 1);
    write(&mut storage, 2, META, 2);
    let (mut guard, _) = storage.start_snapshot();
    let mut shards = storage.take_snapshot(&guard, &encode);
    let first = shards.pop().unwrap().into_iter(&mut guard);
    assert!(first.is_ok());
    let second = shards.pop().unwrap().into_iter(&mut guard);
    assert!(matches!(second, Err(ScratchBufferError::TakenTwice)));
    guard.finish(&mut storage);
}

#[test]
fn scratch_buffer_cannot_be_returned_twice() {
    let mut storage = Storage::new(2, true);
    let (mut guard, _) = storage.start_snapshot();
    assert_eq!(
        guard.return_scratch_buffer(Vec::new()),
        Err(ScratchBufferError::ReturnedWhileUninit)
    );
    let (mut guard, _) = storage.start_snapshot();
    let buffer = guard.take_scratch_buffer().unwrap();
    assert!(guard.return_scratch_buffer(buffer).is_ok());
    assert_eq!(
        guard.return_scratch_buffer(Vec::new()),
        Err(ScratchBufferError::ReturnedWhileAvailable)
    );
    guard.finish(&mut storage);
}

#[test]
fn slots_hand_out_what_they_hold() {
    assert_eq!(ScratchBufferSlot::Available(vec![1]).check_out(), Ok(vec![1]));
    assert_eq!(ScratchBufferSlot::Uninit.check_out(), Ok(vec![]));
    assert_eq!(ScratchBufferSlot::Taken.check_out(), Err(ScratchBufferError::TakenTwice));
    assert_eq!(ScratchBufferSlot::Taken.check_in(), Ok(()));
    assert_eq!(
        ScratchBufferSlot::Available(vec![1]).check_in(),
        Err(ScratchBufferError::ReturnedWhileAvailable)
    );
    assert_eq!(
        ScratchBufferSlot::default().check_in(),
        Err(ScratchBufferError::ReturnedWhileUninit)
    );
}
