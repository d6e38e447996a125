//! Wake handles: a table identity and one data word, the index of a task.
//! Copying a handle copies the word and dropping it does nothing, so waking
//! never allocates and never counts references.
use vstd::prelude::*;
use crate::executor::Executor;
use crate::task::TaskRef;

verus! {

/// Identity of the one table of wake operations that every handle made by
/// this executor carries.
pub const VTABLE: u64 = 0x7461_736b_7761_6b65;

/// A wake handle: the identity of the table that made it and its data word.
#[derive(Clone, Copy, Debug, PartialEq, Eq, Structural)]
pub struct WakeHandle {
    pub vtable: u64,
    pub data: usize,
}

/// A handle was presented that this executor did not make.
#[derive(Clone, Copy, Debug, PartialEq, Eq, Structural)]
pub enum WakerError {
    Foreign,
}

impl WakeHandle {
    /// A handle with the given table identity and data word, such as one made
    /// by another wake mechanism.
    pub fn new(vtable: u64, data: usize) -> (r: WakeHandle)
        ensures
            r.vtable == vtable,
            r.data == data,
    {
        WakeHandle { vtable, data }
    }

    /// The handle was made by this executor.
    pub open spec fn is_ours(self) -> bool {
        self.vtable == VTABLE
    }

    /// Wakes the task the handle refers to, consuming the handle.
    pub fn wake(self, ex: &mut Executor)
        requires
            self.is_ours(),
            old(ex).wf(),
            old(ex)@.valid(self.data as int),
            old(ex)@.states[self.data as int].is_live(),
        ensures
            final(ex).wf(),
            final(ex)@ == old(ex)@.wake(self.data as int),
    {
        ex.wake_task(task_from_waker(&self));
    }

    /// Wakes the task the handle refers to, keeping the handle.
    pub fn wake_by_ref(&self, ex: &mut Executor)
        requires
            self.is_ours(),
            old(ex).wf(),
            old(ex)@.valid(self.data as int),
            old(ex)@.states[self.data as int].is_live(),
        ensures
            final(ex).wf(),
            final(ex)@ == old(ex)@.wake(self.data as int),
    {
        ex.wake_task(task_from_waker(self));
    }
}

/// The handle of task `t`.
pub fn from_task(t: TaskRef) -> (r: WakeHandle)
    ensures
        r.is_ours(),
        r.data == t.index,
{
    WakeHandle { vtable: VTABLE, data: t.index }
}

/// The task a handle of this executor refers to. A handle made elsewhere is
/// a programming error; `try_task_from_waker` reports it instead.
pub fn task_from_waker(waker: &WakeHandle) -> (r: TaskRef)
    requires
        waker.is_ours(),
    ensures
        r.index == waker.data,
{
    TaskRef { index: waker.data }
}

/// The task a handle refers to, after checking that this executor made it.
pub fn try_task_from_waker(waker: &WakeHandle) -> (r: Result<TaskRef, WakerError>)
    ensures
        waker.is_ours() <==> r is Ok,
        match r {
            Ok(t) => t.index == waker.data,
            Err(e) => e == WakerError::Foreign,
        },
{
    if waker.vtable != VTABLE {
        return Err(WakerError::Foreign);
    }
    Ok(task_from_waker(waker))
}

} // verus!
