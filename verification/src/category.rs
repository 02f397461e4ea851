//! The categories of data that a task holds.
use vstd::prelude::*;

verus! {

/// The part of the database in which a category of task data is kept.
#[derive(Debug, Clone, Copy, PartialEq, Eq, Structural, Hash)]
pub enum KeySpace {
    TaskMeta,
    TaskData,
}

/// A selection of the data of a task: its meta data, its data, or both.
#[derive(Debug, Clone, Copy, PartialEq, Eq, Structural, Hash)]
pub enum TaskDataCategory {
    Meta,
    Data,
    All,
}

/// One category of the data of a task.
#[derive(Debug, Clone, Copy, PartialEq, Eq, Structural, Hash)]
pub enum SpecificTaskDataCategory {
    Meta,
    Data,
}

impl TaskDataCategory {
    /// The single category that is selected; `All` selects no single one.
    #[verifier::allow_in_spec]
    pub fn into_specific(self) -> (specific: SpecificTaskDataCategory)
        requires
            self != TaskDataCategory::All,
        ensures
            specific == SpecificTaskDataCategory::Meta <==> self == TaskDataCategory::Meta,
            specific == SpecificTaskDataCategory::Data <==> self == TaskDataCategory::Data,
        returns
            (if self == TaskDataCategory::Meta {
                SpecificTaskDataCategory::Meta
            } else {
                SpecificTaskDataCategory::Data
            }),
    {
        match self {
            TaskDataCategory::Meta => SpecificTaskDataCategory::Meta,
            _ => SpecificTaskDataCategory::Data,
        }
    }

    /// Whether the data category is selected.
    #[verifier::allow_in_spec]
    pub fn includes_data(self) -> bool
        returns
            self != TaskDataCategory::Meta,
    {
        matches!(self, TaskDataCategory::Data | TaskDataCategory::All)
    }

    /// Whether the meta category is selected.
    #[verifier::allow_in_spec]
    pub fn includes_meta(self) -> bool
        returns
            self != TaskDataCategory::Data,
    {
        matches!(self, TaskDataCategory::Meta | TaskDataCategory::All)
    }
}

impl SpecificTaskDataCategory {
    /// The key space in which data of this category is stored.
    #[verifier::allow_in_spec]
    pub fn key_space(self) -> (space: KeySpace)
        ensures
            self == SpecificTaskDataCategory::Meta ==> space == KeySpace::TaskMeta,
            self == SpecificTaskDataCategory::Data ==> space == KeySpace::TaskData,
        returns
            (match self {
                SpecificTaskDataCategory::Meta => KeySpace::TaskMeta,
                SpecificTaskDataCategory::Data => KeySpace::TaskData,
            }),
    {
        match self {
            SpecificTaskDataCategory::Meta => KeySpace::TaskMeta,
            SpecificTaskDataCategory::Data => KeySpace::TaskData,
        }
    }
}

} // verus!
