//! Scratch buffers for encoding tasks, one for each thread.
use crate::task::TurboBincodeBuffer;
use std::cell::Cell;
use thread_local::ThreadLocal;
use vstd::prelude::*;

verus! {

/// How big a buffer is at first: big enough for nearly all values.
pub const SCRATCH_BUFFER_INITIAL_SIZE: usize = 4096;

/// What a thread's scratch buffer is up to.
///
/// The transitions are:
/// - `Uninit` to `Taken`, when the buffer is taken for the first time;
/// - `Available` to `Taken`, when it is taken again;
/// - `Taken` to `Available`, when it is returned.
///
/// Any other use is an error. Even then, the slot is `Taken` after the use was to take a buffer, and
/// `Available` with the buffer that the use was to return.
pub enum ScratchBufferSlot {
    /// No buffer has been allocated on this thread yet.
    Uninit,
    /// The buffer is in use.
    Taken,
    /// The buffer can be used again.
    Available(TurboBincodeBuffer),
}

impl Default for ScratchBufferSlot {
    fn default() -> (slot: ScratchBufferSlot)
        ensures
            slot == ScratchBufferSlot::Uninit,
    {
        ScratchBufferSlot::Uninit
    }
}

/// A use of a scratch buffer that is not one of its transitions.
#[derive(Debug, Clone, Copy, PartialEq, Eq, Structural)]
pub enum ScratchBufferError {
    /// The buffer was taken while it was in use.
    TakenTwice,
    /// A buffer was returned while one was available.
    ReturnedWhileAvailable,
    /// A buffer was returned on a thread that never took one.
    ReturnedWhileUninit,
}

impl ScratchBufferSlot {
    /// The buffer that is handed out when one is taken from a slot in this state.
    pub fn check_out(self) -> (buffer: Result<TurboBincodeBuffer, ScratchBufferError>)
        ensures
            match self {
                ScratchBufferSlot::Available(kept) => buffer == Ok::<_, ScratchBufferError>(kept),
                ScratchBufferSlot::Uninit => buffer matches Ok(fresh) && fresh@.len() == 0,
                ScratchBufferSlot::Taken => buffer == Err::<TurboBincodeBuffer, _>(
                    ScratchBufferError::TakenTwice,
                ),
            },
    {
        match self {
            ScratchBufferSlot::Available(kept) => Ok(kept),
            ScratchBufferSlot::Uninit => Ok(Vec::with_capacity(SCRATCH_BUFFER_INITIAL_SIZE)),
            ScratchBufferSlot::Taken => Err(ScratchBufferError::TakenTwice),
        }
    }

    /// Whether a buffer can be returned to a slot in this state.
    pub fn check_in(self) -> (accepted: Result<(), ScratchBufferError>)
        ensures
            match self {
                ScratchBufferSlot::Taken => accepted is Ok,
                ScratchBufferSlot::Available(_) => accepted == Err::<(), _>(
                    ScratchBufferError::ReturnedWhileAvailable,
                ),
                ScratchBufferSlot::Uninit => accepted == Err::<(), _>(
                    ScratchBufferError::ReturnedWhileUninit,
                ),
            },
    {
        match self {
            ScratchBufferSlot::Taken => Ok(()),
            ScratchBufferSlot::Available(_) => Err(ScratchBufferError::ReturnedWhileAvailable),
            ScratchBufferSlot::Uninit => Err(ScratchBufferError::ReturnedWhileUninit),
        }
    }
}

/// `thread_local::ThreadLocal`: one value for each thread.
#[verifier::external_type_specification]
#[verifier::external_body]
#[verifier::reject_recursive_types(T)]
pub struct ExThreadLocal<T: Send>(ThreadLocal<T>);

/// `std::cell::Cell`: a value that is replaced as a whole.
#[verifier::external_type_specification]
#[verifier::external_body]
#[verifier::reject_recursive_types(T)]
pub struct ExCell<T: ?Sized>(Cell<T>);

/// The scratch buffers of all threads.
pub type ScratchBuffers = ThreadLocal<Cell<ScratchBufferSlot>>;

/// The slots of the threads that have one.
pub uninterp spec fn scratch_slots(buffers: ScratchBuffers) -> Map<nat, ScratchBufferSlot>;

/// The slot of a thread: the one that it has, or else one of which nothing was made yet.
pub open spec fn slot_of_thread(
    slots: Map<nat, ScratchBufferSlot>,
    thread: nat,
) -> ScratchBufferSlot {
    if slots.contains_key(thread) {
        slots[thread]
    } else {
        ScratchBufferSlot::Uninit
    }
}

/// `ThreadLocal::new`: no thread has a slot yet.
#[verifier::external_body]
fn new_scratch_buffers() -> (buffers: ScratchBuffers)
    ensures
        scratch_slots(buffers).is_empty(),
{
    ThreadLocal::new()
}

/// `ThreadLocal::get_or_default`, with `Cell::replace` on what it returns: the slot of one
/// thread, which gets one if it has none, is replaced and handed out; those of the others stay.
/// Which thread that is, is up to who makes the call: it is the calling one.
#[verifier::external_body]
fn replace_scratch_slot(buffers: &mut ScratchBuffers, slot: ScratchBufferSlot) -> (previous:
    ScratchBufferSlot)
    ensures
        exists|thread: nat|
            previous == #[trigger] slot_of_thread(scratch_slots(*old(buffers)), thread)
                && scratch_slots(*final(buffers)) == scratch_slots(*old(buffers)).insert(
                thread,
                slot,
            ),
{
    buffers.get_or_default().replace(slot)
}

/// A thread takes its buffer.
pub open spec fn takes_buffer(
    before: Map<nat, ScratchBufferSlot>,
    thread: nat,
    after: Map<nat, ScratchBufferSlot>,
    buffer: Result<TurboBincodeBuffer, ScratchBufferError>,
) -> bool {
    &&& after == before.insert(thread, ScratchBufferSlot::Taken)
    &&& match slot_of_thread(before, thread) {
        ScratchBufferSlot::Available(kept) => buffer == Ok::<_, ScratchBufferError>(kept),
        ScratchBufferSlot::Uninit => buffer matches Ok(fresh) && fresh@.len() == 0,
        ScratchBufferSlot::Taken => buffer == Err::<TurboBincodeBuffer, _>(
            ScratchBufferError::TakenTwice,
        ),
    }
}

/// A thread returns a buffer.
pub open spec fn returns_buffer(
    before: Map<nat, ScratchBufferSlot>,
    thread: nat,
    after: Map<nat, ScratchBufferSlot>,
    buffer: TurboBincodeBuffer,
    accepted: Result<(), ScratchBufferError>,
) -> bool {
    &&& after == before.insert(thread, ScratchBufferSlot::Available(buffer))
    &&& match slot_of_thread(before, thread) {
        ScratchBufferSlot::Taken => accepted is Ok,
        ScratchBufferSlot::Available(_) => accepted == Err::<(), _>(
            ScratchBufferError::ReturnedWhileAvailable,
        ),
        ScratchBufferSlot::Uninit => accepted == Err::<(), _>(
            ScratchBufferError::ReturnedWhileUninit,
        ),
    }
}

/// Stands for a snapshot that is being written, and holds the scratch buffers for encoding its
/// tasks. A thread uses one buffer again for every shard of which it encodes the tasks.
pub struct SnapshotGuard {
    scratch_buffers: ScratchBuffers,
}

impl View for SnapshotGuard {
    type V = Map<nat, ScratchBufferSlot>;

    closed spec fn view(&self) -> Map<nat, ScratchBufferSlot> {
        scratch_slots(self.scratch_buffers)
    }
}

impl SnapshotGuard {
    /// A guard of which no thread has taken a buffer.
    pub(crate) fn new() -> (guard: SnapshotGuard)
        ensures
            guard@.is_empty(),
    {
        SnapshotGuard { scratch_buffers: new_scratch_buffers() }
    }

    /// Takes the scratch buffer of the calling thread, which must not be in use.
    pub fn take_scratch_buffer(&mut self) -> (buffer: Result<
        TurboBincodeBuffer,
        ScratchBufferError,
    >)
        ensures
            exists|thread: nat| #[trigger] takes_buffer(old(self)@, thread, final(self)@, buffer),
    {
        let slot = replace_scratch_slot(&mut self.scratch_buffers, ScratchBufferSlot::Taken);
        let ghost thread = choose|thread: nat|
            slot == #[trigger] slot_of_thread(old(self)@, thread) && self@ == old(self)@.insert(
                thread,
                ScratchBufferSlot::Taken,
            );
        let buffer = slot.check_out();
        assert(takes_buffer(old(self)@, thread, self@, buffer));
        buffer
    }

    /// Returns the scratch buffer of the calling thread, which must be in use.
    pub fn return_scratch_buffer(&mut self, buffer: TurboBincodeBuffer) -> (accepted: Result<
        (),
        ScratchBufferError,
    >)
        ensures
            exists|thread: nat| #[trigger]
                returns_buffer(old(self)@, thread, final(self)@, buffer, accepted),
    {
        let ghost returned = buffer;
        let slot = replace_scratch_slot(
            &mut self.scratch_buffers,
            ScratchBufferSlot::Available(buffer),
        );
        let ghost thread = choose|thread: nat|
            slot == #[trigger] slot_of_thread(old(self)@, thread) && self@ == old(self)@.insert(
                thread,
                ScratchBufferSlot::Available(returned),
            );
        let accepted = slot.check_in();
        assert(returns_buffer(old(self)@, thread, self@, returned, accepted));
        accepted
    }
}

} // verus!
