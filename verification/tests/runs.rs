use std::collections::BTreeMap;
use task_storage::category::SpecificTaskDataCategory;
use task_storage::storage::Storage;
use task_storage::task::{SnapshotItem, TaskId, TaskStorage};

const TASKS: u32 = 24;

/// Numbers that look random but are the same in every run.
struct Numbers(u64);

impl Numbers {
    fn below(&mut self, limit: u32) -> u32 {
        self.0 = self.0.wrapping_mul(6364136223846793005).wrapping_add(1442695040888963407);
        ((self.0 >> 33) as u32) % limit
    }
}

fn encode(task_id: TaskId, task: &TaskStorage, buffer: Vec<u8>) -> (SnapshotItem, Vec<u8>) {
    let meta = if task.flags.meta_modified { Some(task.meta.clone()) } else { None };
    let data = if task.flags.data_modified { Some(task.data.clone()) } else { None };
    (SnapshotItem { task_id, meta, data }, buffer)
}

/// Writes a new value to a category of some task, and notes it.
fn write(
    storage: &mut Storage,
    numbers: &mut Numbers,
    value: u8,
    state: &mut BTreeMap<(u32, bool), u8>,
) {
    let id = numbers.below(TASKS) + 1;
    let is_meta = numbers.below(2) == 0;
    let mut guard = storage.access_mut(TaskId { id });
    if is_meta {
        guard.track_modification(SpecificTaskDataCategory::Meta, "meta");
        let mut task = guard.load();
        task.meta = vec![value];
        guard.store(task);
    } else {
        guard.track_modification(SpecificTaskDataCategory::Data, "data");
        let mut task = guard.load();
        task.data = vec![value];
        guard.store(task);
    }
    state.insert((id, is_meta), value);
}

/// Puts an item into the database.
fn persist(item: SnapshotItem, database: &mut BTreeMap<(u32, bool), u8>) {
    if let Some(meta) = item.meta {
        if let Some(value) = meta.first() {
            database.insert((item.task_id.id, true), *value);
        }
    }
    if let Some(data) = item.data {
        if let Some(value) = data.first() {
            database.insert((item.task_id.id, false), *value);
        }
    }
}

#[test]
fn snapshots_persist_the_storage_at_their_start() {
    for seed in 0..40 {
        let mut numbers = Numbers(seed);
        let mut storage = Storage::new(4, true);
        let mut state: BTreeMap<(u32, bool), u8> = BTreeMap::new();
        let mut database: BTreeMap<(u32, bool), u8> = BTreeMap::new();
        let mut value = 0u8;
        for _ in 0..10 {
            for _ in 0..numbers.below(12) {
                value = value.wrapping_add(1);
                write(&mut storage, &mut numbers, value, &mut state);
            }
            let start = state.clone();
            let (mut guard, has_modifications) = storage.start_snapshot();
            assert_eq!(has_modifications, database != start);
            for _ in 0..numbers.below(8) {
                value = value.wrapping_add(1);
                write(&mut storage, &mut numbers, value, &mut state);
            }
            let shards = storage.take_snapshot(&guard, &encode);
            for shard in shards {
                let mut iter =
                    shard.into_iter(&mut guard).unwrap_or_else(|_| panic!("buffer in use"));
                loop {
                    for _ in 0..numbers.below(3) {
                        value = value.wrapping_add(1);
                        write(&mut storage, &mut numbers, value, &mut state);
                    }
                    match iter.next(&mut storage) {
                        Some(item) => persist(item, &mut database),
                        None => break,
                    }
                }
                assert!(iter.finish(&mut guard).is_ok());
            }
            assert_eq!(database, start);
            guard.finish(&mut storage);
        }
    }
}
