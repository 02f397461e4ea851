use task_storage::category::{KeySpace, SpecificTaskDataCategory, TaskDataCategory};
use task_storage::task::{SnapshotItem, TaskFlags, TaskId, TaskStorage};

#[test]
fn single_categories_are_specific() {
    assert_eq!(TaskDataCategory::Meta.into_specific(), SpecificTaskDataCategory::Meta);
    assert_eq!(TaskDataCategory::Data.into_specific(), SpecificTaskDataCategory::Data);
}

#[test]
fn categories_include_what_they_select() {
    assert!(TaskDataCategory::Meta.includes_meta());
    assert!(!TaskDataCategory::Meta.includes_data());
    assert!(!TaskDataCategory::Data.includes_meta());
    assert!(TaskDataCategory::Data.includes_data());
    assert!(TaskDataCategory::All.includes_meta());
    assert!(TaskDataCategory::All.includes_data());
}

#[test]
fn categories_have_their_key_space() {
    assert_eq!(SpecificTaskDataCategory::Meta.key_space(), KeySpace::TaskMeta);
    assert_eq!(SpecificTaskDataCategory::Data.key_space(), KeySpace::TaskData);
}

#[test]
fn high_identifiers_are_transient() {
    assert!(!TaskId { id: 1 }.is_transient());
    assert!(!TaskId { id: 0x7fff_ffff }.is_transient());
    assert!(TaskId { id: 0x8000_0000 }.is_transient());
    assert!(TaskId { id: u32::MAX }.is_transient());
}

#[test]
fn flags_are_set_by_category() {
    let mut flags = TaskFlags::new();
    assert!(!flags.any_modified());
    assert!(!flags.any_modified_during_snapshot());
    flags.set_modified(SpecificTaskDataCategory::Data, true);
    assert!(flags.any_modified());
    assert!(flags.is_modified(SpecificTaskDataCategory::Data));
    assert!(!flags.is_modified(SpecificTaskDataCategory::Meta));
    flags.set_modified_during_snapshot(SpecificTaskDataCategory::Meta, true);
    assert!(flags.any_modified_during_snapshot());
    assert!(flags.is_modified_during_snapshot(SpecificTaskDataCategory::Meta));
    assert!(!flags.is_modified_during_snapshot(SpecificTaskDataCategory::Data));
    flags.set_restored(TaskDataCategory::Meta);
    assert!(flags.meta_restored && !flags.data_restored);
    flags.set_restored(TaskDataCategory::All);
    assert!(flags.meta_restored && flags.data_restored);
}

#[test]
fn flags_are_promoted() {
    let mut flags = TaskFlags::new();
    assert!(!flags.promote());
    assert_eq!(flags, TaskFlags::new());
    flags.set_data_modified(true);
    flags.set_meta_modified_during_snapshot(true);
    assert!(flags.promote());
    assert!(flags.meta_modified && flags.data_modified);
    assert!(!flags.any_modified_during_snapshot());
}

#[test]
fn snapshot_copies_hold_persistent_fields_only() {
    let mut task = TaskStorage::new();
    task.meta = vec![1, 2];
    task.data = vec![3];
    task.transient = vec![4];
    task.flags.set_meta_modified(true);
    let copy = task.clone_snapshot();
    assert_eq!(copy.meta, vec![1, 2]);
    assert_eq!(copy.data, vec![3]);
    assert!(copy.transient.is_empty());
    assert_eq!(copy.flags, TaskFlags::new());
    let whole = task.copy();
    assert_eq!(whole.transient, vec![4]);
    assert_eq!(whole.flags, task.flags);
}

#[test]
fn items_without_a_category_are_empty() {
    let task_id = TaskId { id: 1 };
    assert!(SnapshotItem { task_id, meta: None, data: None }.is_empty());
    assert!(!SnapshotItem { task_id, meta: Some(vec![]), data: None }.is_empty());
    assert!(!SnapshotItem { task_id, meta: None, data: Some(vec![]) }.is_empty());
}
