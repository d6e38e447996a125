//! Task control blocks and their lifecycle states.
use vstd::prelude::*;

verus! {

/// Lifecycle state of one slot of the task arena.
#[derive(Clone, Copy, Debug, PartialEq, Eq, Structural)]
pub enum TaskState {
    /// The slot has never held a task.
    Vacant,
    /// Suspended, waiting for a wake.
    Idle,
    /// Linked into the ready queue (or claimed by the executor, not yet polled).
    Queued,
    /// Inside its poll, not woken since the poll began.
    Running,
    /// Inside its poll and woken at least once since the poll began.
    RunningWoken,
    /// The computation completed; the slot may be reused by a later spawn.
    Finished,
}

impl TaskState {
    /// The slot can take a new task.
    pub open spec fn is_free(self) -> bool {
        self == TaskState::Vacant || self == TaskState::Finished
    }

    /// The slot holds a task that may still be woken.
    pub open spec fn is_live(self) -> bool {
        !self.is_free()
    }

    pub open spec fn is_running(self) -> bool {
        self == TaskState::Running || self == TaskState::RunningWoken
    }

    /// Whether the slot can take a new task.
    pub fn free(&self) -> (r: bool)
        ensures
            r == self.is_free(),
    {
        match self {
            TaskState::Vacant | TaskState::Finished => true,
            _ => false,
        }
    }
}

/// Control block of one task: its state and the intrusive link of the ready
/// queue (the next task in the list, or `None`).
#[derive(Clone, Copy, Debug, PartialEq, Eq, Structural)]
pub struct TaskHeader {
    pub state: TaskState,
    pub link: Option<usize>,
}

/// Reference to a task: the index of its slot in the executor's arena.
#[derive(Clone, Copy, Debug, PartialEq, Eq, Structural)]
pub struct TaskRef {
    pub index: usize,
}

} // verus!
