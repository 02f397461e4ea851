//! Tasks: their identifiers, their flags, and the data held for each of them.
use crate::category::{SpecificTaskDataCategory, TaskDataCategory};
use vstd::prelude::*;

verus! {

/// The bytes that an encoder writes its output to.
pub type TurboBincodeBuffer = Vec<u8>;

/// The identifiers from this one on belong to transient tasks.
pub const TRANSIENT_TASK_BIT: u32 = 0x8000_0000;

/// Whether an identifier belongs to a transient task, which is never persisted.
pub open spec fn is_transient_id(id: u32) -> bool {
    id >= TRANSIENT_TASK_BIT
}

/// The identifier of a task.
#[derive(Debug, Clone, Copy, PartialEq, Eq, Structural, Hash)]
pub struct TaskId {
    pub id: u32,
}

impl TaskId {
    /// Whether the task lives in memory only.
    pub fn is_transient(&self) -> (transient: bool)
        ensures
            transient == is_transient_id(self.id),
    {
        self.id >= TRANSIENT_TASK_BIT
    }
}

/// The state of a task that is kept for the storage itself and is never persisted.
#[derive(Debug, Clone, Copy, PartialEq, Eq, Structural, Hash)]
pub struct TaskFlags {
    /// The meta data in memory is complete: no database lookup is needed.
    pub meta_restored: bool,
    /// The data in memory is complete: no database lookup is needed.
    pub data_restored: bool,
    /// The meta data differs from what is persisted.
    pub meta_modified: bool,
    /// The data differs from what is persisted.
    pub data_modified: bool,
    /// The meta data was modified while a snapshot was being written.
    pub meta_modified_during_snapshot: bool,
    /// The data was modified while a snapshot was being written.
    pub data_modified_during_snapshot: bool,
    /// The task was never persisted.
    pub new_task: bool,
}

impl TaskFlags {
    /// No flag set.
    pub open spec fn none() -> TaskFlags {
        TaskFlags {
            meta_restored: false,
            data_restored: false,
            meta_modified: false,
            data_modified: false,
            meta_modified_during_snapshot: false,
            data_modified_during_snapshot: false,
            new_task: false,
        }
    }

    /// These flags with those for "restored" set in the categories selected.
    pub open spec fn with_restored(self, category: TaskDataCategory) -> TaskFlags {
        TaskFlags {
            meta_restored: self.meta_restored || category.includes_meta(),
            data_restored: self.data_restored || category.includes_data(),
            ..self
        }
    }

    /// These flags with the one for "modified" in a category set to a value.
    pub open spec fn with_modified(
        self,
        category: SpecificTaskDataCategory,
        value: bool,
    ) -> TaskFlags {
        match category {
            SpecificTaskDataCategory::Meta => TaskFlags { meta_modified: value, ..self },
            SpecificTaskDataCategory::Data => TaskFlags { data_modified: value, ..self },
        }
    }

    /// These flags with the one for "modified during a snapshot" in a category set to a value.
    pub open spec fn with_modified_during_snapshot(
        self,
        category: SpecificTaskDataCategory,
        value: bool,
    ) -> TaskFlags {
        match category {
            SpecificTaskDataCategory::Meta => TaskFlags {
                meta_modified_during_snapshot: value,
                ..self
            },
            SpecificTaskDataCategory::Data => TaskFlags {
                data_modified_during_snapshot: value,
                ..self
            },
        }
    }

    /// These flags once the task is persisted: neither modified nor new.
    pub open spec fn persisted(self) -> TaskFlags {
        TaskFlags { meta_modified: false, data_modified: false, new_task: false, ..self }
    }

    /// These flags with every "modified during a snapshot" turned into a "modified".
    pub open spec fn promoted(self) -> TaskFlags {
        TaskFlags {
            meta_modified: self.meta_modified || self.meta_modified_during_snapshot,
            data_modified: self.data_modified || self.data_modified_during_snapshot,
            meta_modified_during_snapshot: false,
            data_modified_during_snapshot: false,
            ..self
        }
    }

    /// Flags of which none is set.
    pub fn new() -> (flags: TaskFlags)
        ensures
            flags == TaskFlags::none(),
    {
        TaskFlags {
            meta_restored: false,
            data_restored: false,
            meta_modified: false,
            data_modified: false,
            meta_modified_during_snapshot: false,
            data_modified_during_snapshot: false,
            new_task: false,
        }
    }

    /// Whether some category is modified.
    #[verifier::allow_in_spec]
    pub fn any_modified(&self) -> bool
        returns
            self.meta_modified || self.data_modified,
    {
        self.meta_modified || self.data_modified
    }

    /// Whether some category was modified during a snapshot.
    #[verifier::allow_in_spec]
    pub fn any_modified_during_snapshot(&self) -> bool
        returns
            self.meta_modified_during_snapshot || self.data_modified_during_snapshot,
    {
        self.meta_modified_during_snapshot || self.data_modified_during_snapshot
    }

    /// Whether the category is modified.
    #[verifier::allow_in_spec]
    pub fn is_modified(&self, category: SpecificTaskDataCategory) -> bool
        returns
            (match category {
                SpecificTaskDataCategory::Meta => self.meta_modified,
                SpecificTaskDataCategory::Data => self.data_modified,
            }),
    {
        match category {
            SpecificTaskDataCategory::Meta => self.meta_modified,
            SpecificTaskDataCategory::Data => self.data_modified,
        }
    }

    /// Whether the category was modified during a snapshot.
    #[verifier::allow_in_spec]
    pub fn is_modified_during_snapshot(&self, category: SpecificTaskDataCategory) -> bool
        returns
            (match category {
                SpecificTaskDataCategory::Meta => self.meta_modified_during_snapshot,
                SpecificTaskDataCategory::Data => self.data_modified_during_snapshot,
            }),
    {
        match category {
            SpecificTaskDataCategory::Meta => self.meta_modified_during_snapshot,
            SpecificTaskDataCategory::Data => self.data_modified_during_snapshot,
        }
    }

    /// Marks the categories selected as restored.
    pub fn set_restored(&mut self, category: TaskDataCategory)
        ensures
            *final(self) == old(self).with_restored(category),
    {
        if category.includes_meta() {
            self.meta_restored = true;
        }
        if category.includes_data() {
            self.data_restored = true;
        }
    }

    /// Sets whether the task was never persisted.
    pub fn set_new_task(&mut self, value: bool)
        ensures
            *final(self) == (TaskFlags { new_task: value, ..*old(self) }),
    {
        self.new_task = value;
    }

    /// Sets whether the meta data is modified.
    pub fn set_meta_modified(&mut self, value: bool)
        ensures
            *final(self) == (TaskFlags { meta_modified: value, ..*old(self) }),
    {
        self.meta_modified = value;
    }

    /// Sets whether the data is modified.
    pub fn set_data_modified(&mut self, value: bool)
        ensures
            *final(self) == (TaskFlags { data_modified: value, ..*old(self) }),
    {
        self.data_modified = value;
    }

    /// Sets whether the meta data was modified during a snapshot.
    pub fn set_meta_modified_during_snapshot(&mut self, value: bool)
        ensures
            *final(self) == (TaskFlags { meta_modified_during_snapshot: value, ..*old(self) }),
    {
        self.meta_modified_during_snapshot = value;
    }

    /// Sets whether the data was modified during a snapshot.
    pub fn set_data_modified_during_snapshot(&mut self, value: bool)
        ensures
            *final(self) == (TaskFlags { data_modified_during_snapshot: value, ..*old(self) }),
    {
        self.data_modified_during_snapshot = value;
    }

    /// Sets whether the category is modified.
    pub fn set_modified(&mut self, category: SpecificTaskDataCategory, value: bool)
        ensures
            *final(self) == old(self).with_modified(category, value),
    {
        match category {
            SpecificTaskDataCategory::Meta => self.set_meta_modified(value),
            SpecificTaskDataCategory::Data => self.set_data_modified(value),
        }
    }

    /// Sets whether the category was modified during a snapshot.
    pub fn set_modified_during_snapshot(&mut self, category: SpecificTaskDataCategory, value: bool)
        ensures
            *final(self) == old(self).with_modified_during_snapshot(category, value),
    {
        match category {
            SpecificTaskDataCategory::Meta => self.set_meta_modified_during_snapshot(value),
            SpecificTaskDataCategory::Data => self.set_data_modified_during_snapshot(value),
        }
    }

    /// Turns every "modified during a snapshot" into a "modified", and says whether there was one.
    pub fn promote(&mut self) -> (promoted: bool)
        ensures
            *final(self) == old(self).promoted(),
            promoted == old(self).any_modified_during_snapshot(),
    {
        let mut promoted = false;
        if self.meta_modified_during_snapshot {
            self.set_meta_modified_during_snapshot(false);
            self.set_meta_modified(true);
            promoted = true;
        }
        if self.data_modified_during_snapshot {
            self.set_data_modified_during_snapshot(false);
            self.set_data_modified(true);
            promoted = true;
        }
        promoted
    }
}

/// What is known of a task: its flags and the contents of its fields.
#[verifier::ext_equal]
pub struct TaskView {
    pub flags: TaskFlags,
    pub meta: Seq<u8>,
    pub data: Seq<u8>,
    pub transient: Seq<u8>,
}

impl TaskView {
    /// A task of which nothing is known yet.
    pub open spec fn blank() -> TaskView {
        TaskView {
            flags: TaskFlags::none(),
            meta: Seq::empty(),
            data: Seq::empty(),
            transient: Seq::empty(),
        }
    }

    /// The copy of a task that a snapshot keeps: its persistent fields, and those of its flags
    /// that say what of it is to be persisted.
    pub open spec fn snapshot_copy(self) -> TaskView {
        TaskView {
            flags: TaskFlags {
                meta_modified: self.flags.meta_modified,
                data_modified: self.flags.data_modified,
                new_task: self.flags.new_task,
                ..TaskFlags::none()
            },
            transient: Seq::empty(),
            ..self
        }
    }
}

/// The data held for one task: its flags, its persistent fields by category in their encoded
/// form, and the fields that live in memory only.
pub struct TaskStorage {
    pub flags: TaskFlags,
    pub meta: Vec<u8>,
    pub data: Vec<u8>,
    pub transient: Vec<u8>,
}

impl View for TaskStorage {
    type V = TaskView;

    open spec fn view(&self) -> TaskView {
        TaskView {
            flags: self.flags,
            meta: self.meta@,
            data: self.data@,
            transient: self.transient@,
        }
    }
}

/// A copy of some bytes.
fn copy_bytes(bytes: &Vec<u8>) -> (copy: Vec<u8>)
    ensures
        copy@ == bytes@,
{
    let mut copy: Vec<u8> = Vec::with_capacity(bytes.len());
    for i in 0..bytes.len()
        invariant
            copy@ == bytes@.take(i as int),
    {
        copy.push(bytes[i]);
        assert(bytes@.take(i + 1) == bytes@.take(i as int).push(bytes@[i as int]));
    }
    assert(bytes@.take(bytes@.len() as int) == bytes@);
    copy
}

impl TaskStorage {
    /// A task of which nothing is known yet.
    pub fn new() -> (task: TaskStorage)
        ensures
            task@ == TaskView::blank(),
    {
        TaskStorage {
            flags: TaskFlags::new(),
            meta: Vec::new(),
            data: Vec::new(),
            transient: Vec::new(),
        }
    }

    /// A copy of the persistent fields, with no flag set.
    pub fn clone_snapshot(&self) -> (copy: TaskStorage)
        ensures
            copy@ == (TaskView {
                flags: TaskFlags::none(),
                transient: Seq::empty(),
                ..self@
            }),
    {
        TaskStorage {
            flags: TaskFlags::new(),
            meta: copy_bytes(&self.meta),
            data: copy_bytes(&self.data),
            transient: Vec::new(),
        }
    }

    /// A copy of the task with all that it holds.
    pub fn copy(&self) -> (copy: TaskStorage)
        ensures
            copy@ == self@,
    {
        TaskStorage {
            flags: self.flags,
            meta: copy_bytes(&self.meta),
            data: copy_bytes(&self.data),
            transient: copy_bytes(&self.transient),
        }
    }
}

/// What a snapshot writes for one task: the encoded fields of the categories to be persisted.
pub struct SnapshotItem {
    pub task_id: TaskId,
    pub meta: Option<TurboBincodeBuffer>,
    pub data: Option<TurboBincodeBuffer>,
}

impl SnapshotItem {
    /// Whether there is nothing to write.
    #[verifier::allow_in_spec]
    pub fn is_empty(&self) -> bool
        returns
            self.meta is None && self.data is None,
    {
        self.meta.is_none() && self.data.is_none()
    }
}

} // verus!
