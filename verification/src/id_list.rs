//! Short lists of task identifiers, which take up to four of them without an allocation.
use smallvec::SmallVec;
use vstd::prelude::*;

verus! {

/// A list of task identifiers, kept in a `smallvec::SmallVec`.
#[verifier::external_body]
pub struct TaskIdList {
    ids: SmallVec<[u32; 4]>,
}

/// The identifiers in a list, in their order.
pub uninterp spec fn task_ids(list: TaskIdList) -> Seq<u32>;

impl View for TaskIdList {
    type V = Seq<u32>;

    open spec fn view(&self) -> Seq<u32> {
        task_ids(*self)
    }
}

impl TaskIdList {
    /// `SmallVec::new`: a list of nothing.
    #[verifier::external_body]
    pub(crate) fn new() -> (list: TaskIdList)
        ensures
            task_ids(list) == Seq::<u32>::empty(),
    {
        TaskIdList { ids: SmallVec::new() }
    }

    /// `SmallVec::push`: one more identifier stands at the end.
    #[verifier::external_body]
    pub(crate) fn push(&mut self, id: u32)
        ensures
            task_ids(*final(self)) == task_ids(*old(self)).push(id),
    {
        self.ids.push(id)
    }

    /// `SmallVec::pop`: takes the last identifier off the list, where there is one.
    #[verifier::external_body]
    pub(crate) fn pop(&mut self) -> (id: Option<u32>)
        ensures
            task_ids(*old(self)).len() == 0 ==> id is None && task_ids(*final(self)) == task_ids(
                *old(self),
            ),
            task_ids(*old(self)).len() > 0 ==> id == Some(task_ids(*old(self)).last()) && task_ids(
                *final(self),
            ) == task_ids(*old(self)).drop_last(),
    {
        self.ids.pop()
    }

    /// `SmallVec::is_empty`: whether the list holds nothing.
    #[verifier::external_body]
    pub(crate) fn is_empty(&self) -> (empty: bool)
        ensures
            empty == (task_ids(*self).len() == 0),
    {
        self.ids.is_empty()
    }
}

} // verus!
