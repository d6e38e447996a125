//! Raw task-scheduling core of an allocation-free executor: task control
//! blocks, single-word wake handles, an intrusive ready queue and the
//! decisions of the poll loop, all over a fixed-capacity task arena.

pub mod task;
pub mod model;
pub mod run_queue;
pub mod executor;
pub mod waker;
pub mod guarantees;
