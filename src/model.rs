//! Abstract model of the executor: the state of every slot, the ready list
//! (newest first) and the batch claimed by the executor (next task last), with
//! one spec function per operation.
use vstd::prelude::*;
use crate::task::{TaskRef, TaskState};

verus! {

/// What the executor is, seen without its links.
pub struct ExecModel {
    pub states: Seq<TaskState>,
    /// Tasks linked into the ready queue, most recently pushed first.
    pub queue: Seq<usize>,
    /// Tasks claimed from the queue and not yet polled; the next one is last.
    pub batch: Seq<usize>,
}

/// What the poll loop does next.
#[derive(Clone, Copy, Debug, PartialEq, Eq, Structural)]
pub enum Action {
    /// Poll the given task; `step` has marked it running.
    Poll(TaskRef),
    /// Nothing is ready: wait for an event.
    Park,
}

/// Index of the first free slot at or after `i`.
pub open spec fn free_slot_from(states: Seq<TaskState>, i: int) -> Option<int>
    decreases states.len() - i,
{
    if i < 0 || i >= states.len() {
        None
    } else if states[i].is_free() {
        Some(i)
    } else {
        free_slot_from(states, i + 1)
    }
}

impl ExecModel {
    /// A fresh arena of `capacity` vacant slots.
    pub open spec fn empty(capacity: nat) -> ExecModel {
        ExecModel {
            states: Seq::new(capacity, |i: int| TaskState::Vacant),
            queue: Seq::empty(),
            batch: Seq::empty(),
        }
    }

    pub open spec fn valid(self, t: int) -> bool {
        0 <= t < self.states.len()
    }

    /// The task sits in the ready queue or in the claimed batch.
    pub open spec fn pending(self, t: int) -> bool {
        self.queue.contains(t as usize) || self.batch.contains(t as usize)
    }

    /// Each task is in the queue or batch at most once, never in both, and
    /// there exactly when its state is `Queued`.
    pub open spec fn wf(self) -> bool {
        &&& self.states.len() <= usize::MAX
        &&& self.queue.no_duplicates()
        &&& self.batch.no_duplicates()
        &&& forall|i: int| 0 <= i < self.queue.len() ==> self.valid(self.queue[i] as int)
        &&& forall|i: int| 0 <= i < self.batch.len() ==> self.valid(self.batch[i] as int)
        &&& forall|i: int, j: int|
            0 <= i < self.queue.len() && 0 <= j < self.batch.len() ==> self.queue[i]
                != self.batch[j]
        &&& forall|t: int|
            #![trigger self.states[t]]
            self.valid(t) ==> (self.states[t] == TaskState::Queued <==> self.pending(t))
    }

    /// The slot that the next spawn takes.
    pub open spec fn free_slot(self) -> Option<int> {
        free_slot_from(self.states, 0)
    }

    /// A wake: an idle task is pushed onto the queue, a running one is marked
    /// woken; any other state is left as it is.
    pub open spec fn wake(self, t: int) -> ExecModel {
        if !self.valid(t) {
            self
        } else if self.states[t] == TaskState::Idle {
            ExecModel {
                states: self.states.update(t, TaskState::Queued),
                queue: seq![t as usize] + self.queue,
                batch: self.batch,
            }
        } else if self.states[t] == TaskState::Running {
            ExecModel { states: self.states.update(t, TaskState::RunningWoken), ..self }
        } else {
            self
        }
    }

    /// A spawn into the first free slot, which is then queued.
    pub open spec fn spawn(self) -> ExecModel {
        match self.free_slot() {
            Some(i) => ExecModel {
                states: self.states.update(i, TaskState::Queued),
                queue: seq![i as usize] + self.queue,
                batch: self.batch,
            },
            None => self,
        }
    }

    /// The executor takes the whole ready queue at once.
    pub open spec fn claim(self) -> ExecModel {
        ExecModel { states: self.states, queue: Seq::empty(), batch: self.batch + self.queue }
    }

    /// The model after `step`: claims when the batch is empty, then starts the
    /// poll of the next claimed task, if any.
    pub open spec fn step(self) -> ExecModel {
        let m = if self.batch.len() == 0 {
            self.claim()
        } else {
            self
        };
        if m.batch.len() == 0 {
            m
        } else {
            ExecModel {
                states: m.states.update(m.batch.last() as int, TaskState::Running),
                queue: m.queue,
                batch: m.batch.drop_last(),
            }
        }
    }

    /// The action that `step` reports.
    pub open spec fn step_action(self) -> Action {
        let m = if self.batch.len() == 0 {
            self.claim()
        } else {
            self
        };
        if m.batch.len() == 0 {
            Action::Park
        } else {
            Action::Poll(TaskRef { index: m.batch.last() })
        }
    }

    /// The end of a poll: a completed task is finished; a suspended one is
    /// queued again if it was woken during the poll, and idle otherwise.
    pub open spec fn end_poll(self, t: int, completed: bool) -> ExecModel {
        if completed {
            ExecModel { states: self.states.update(t, TaskState::Finished), ..self }
        } else if self.states[t] == TaskState::RunningWoken {
            ExecModel {
                states: self.states.update(t, TaskState::Queued),
                queue: seq![t as usize] + self.queue,
                batch: self.batch,
            }
        } else {
            ExecModel { states: self.states.update(t, TaskState::Idle), ..self }
        }
    }
}


/// Waking any task keeps the model well formed.
pub proof fn lemma_wake_wf(m: ExecModel, t: int)
    requires
        m.wf(),
    ensures
        m.wake(t).wf(),
{
    let r = m.wake(t);
    if m.valid(t) && m.states[t] == TaskState::Idle {
        assert(!m.pending(t));
        assert forall|u: int| #![trigger r.states[u]] r.valid(u) implies (r.states[u]
            == TaskState::Queued <==> r.pending(u)) by {
            if u != t {
                assert(m.states[u] == TaskState::Queued <==> m.pending(u));
                assert(r.queue.contains(u as usize) <==> m.queue.contains(u as usize)) by {
                    if r.queue.contains(u as usize) {
                        let k = choose|k: int| 0 <= k < r.queue.len() && r.queue[k] == u as usize;
                        assert(m.queue[k - 1] == u as usize);
                    }
                    if m.queue.contains(u as usize) {
                        let k = choose|k: int| 0 <= k < m.queue.len() && m.queue[k] == u as usize;
                        assert(r.queue[k + 1] == u as usize);
                    }
                }
            } else {
                assert(r.queue[0] == t as usize);
            }
        }
        assert forall|i: int, j: int|
            0 <= i < r.queue.len() && 0 <= j < r.batch.len() implies r.queue[i]
            != r.batch[j] by {
            if i == 0 {
                assert(!m.batch.contains(t as usize));
            } else {
                assert(r.queue[i] == m.queue[i - 1]);
            }
        }
        assert forall|i: int, j: int|
            0 <= i < r.queue.len() && 0 <= j < r.queue.len() && i != j implies r.queue[i]
            != r.queue[j] by {
            if i == 0 {
                assert(!m.queue.contains(t as usize));
                assert(r.queue[j] == m.queue[j - 1]);
            } else if j == 0 {
                assert(!m.queue.contains(t as usize));
                assert(r.queue[i] == m.queue[i - 1]);
            }
        }
    }
}

/// Spawning keeps the model well formed.
pub proof fn lemma_spawn_wf(m: ExecModel)
    requires
        m.wf(),
    ensures
        m.spawn().wf(),
{
    lemma_free_slot_from(m.states, 0);
    if let Some(i) = m.free_slot() {
        let idle = ExecModel { states: m.states.update(i, TaskState::Idle), ..m };
        assert(idle.wf()) by {
            assert forall|u: int| #![trigger idle.states[u]] idle.valid(u) implies (
            idle.states[u] == TaskState::Queued <==> idle.pending(u)) by {
                assert(m.states[u] == TaskState::Queued <==> m.pending(u));
            }
        }
        lemma_wake_wf(idle, i);
        assert(idle.wake(i).states =~= m.spawn().states);
    }
}

/// What `free_slot_from` finds is a free slot, and none before it is free.
pub proof fn lemma_free_slot_from(states: Seq<TaskState>, i: int)
    requires
        0 <= i,
    ensures
        match free_slot_from(states, i) {
            Some(j) => i <= j < states.len() && states[j].is_free() && forall|k: int|
                i <= k < j ==> !(#[trigger] states[k]).is_free(),
            None => forall|k: int| i <= k < states.len() ==> !(#[trigger] states[k]).is_free(),
        },
    decreases states.len() - i,
{
    if i < states.len() && !states[i].is_free() {
        lemma_free_slot_from(states, i + 1);
    }
}

/// Claiming keeps the model well formed.
pub proof fn lemma_claim_wf(m: ExecModel)
    requires
        m.wf(),
    ensures
        m.claim().wf(),
{
    let r = m.claim();
    assert forall|i: int, j: int|
        0 <= i < r.batch.len() && 0 <= j < r.batch.len() && i != j implies r.batch[i]
        != r.batch[j] by {
        let b = m.batch.len() as int;
        if i < b && j >= b {
            assert(r.batch[j] == m.queue[j - b]);
        } else if i >= b && j < b {
            assert(r.batch[i] == m.queue[i - b]);
        }
    }
    assert forall|u: int| #![trigger r.states[u]] r.valid(u) implies (r.states[u]
        == TaskState::Queued <==> r.pending(u)) by {
        assert(m.states[u] == TaskState::Queued <==> m.pending(u));
        if m.queue.contains(u as usize) {
            let k = choose|k: int| 0 <= k < m.queue.len() && m.queue[k] == u as usize;
            assert(r.batch[m.batch.len() + k] == u as usize);
        }
        if m.batch.contains(u as usize) {
            let k = choose|k: int| 0 <= k < m.batch.len() && m.batch[k] == u as usize;
            assert(r.batch[k] == u as usize);
        }
        if r.batch.contains(u as usize) {
            let k = choose|k: int| 0 <= k < r.batch.len() && r.batch[k] == u as usize;
            if k < m.batch.len() {
                assert(m.batch[k] == u as usize);
            } else {
                assert(m.queue[k - m.batch.len()] == u as usize);
            }
        }
    }
}

/// A step keeps the model well formed.
pub proof fn lemma_step_wf(m: ExecModel)
    requires
        m.wf(),
    ensures
        m.step().wf(),
{
    let c = if m.batch.len() == 0 {
        m.claim()
    } else {
        m
    };
    lemma_claim_wf(m);
    if c.batch.len() > 0 {
        let r = m.step();
        let t = c.batch.last() as int;
        assert(c.valid(t));
        assert forall|u: int| #![trigger r.states[u]] r.valid(u) implies (r.states[u]
            == TaskState::Queued <==> r.pending(u)) by {
            assert(c.states[u] == TaskState::Queued <==> c.pending(u));
            if u == t {
                assert(!c.queue.contains(t as usize));
                if r.batch.contains(t as usize) {
                    let k = choose|k: int| 0 <= k < r.batch.len() && r.batch[k] == t as usize;
                    assert(c.batch[k] == c.batch[c.batch.len() - 1]);
                }
            } else if c.batch.contains(u as usize) {
                let k = choose|k: int| 0 <= k < c.batch.len() && c.batch[k] == u as usize;
                assert(r.batch[k] == u as usize);
            }
        }
    }
}

/// Ending the poll of a running task keeps the model well formed.
pub proof fn lemma_end_poll_wf(m: ExecModel, t: int, completed: bool)
    requires
        m.wf(),
        m.valid(t),
        m.states[t].is_running(),
    ensures
        m.end_poll(t, completed).wf(),
{
    let r = m.end_poll(t, completed);
    assert(!m.pending(t));
    if !completed && m.states[t] == TaskState::RunningWoken {
        let idle = ExecModel { states: m.states.update(t, TaskState::Idle), ..m };
        assert(idle.wf()) by {
            assert forall|u: int| #![trigger idle.states[u]] idle.valid(u) implies (
            idle.states[u] == TaskState::Queued <==> idle.pending(u)) by {
                assert(m.states[u] == TaskState::Queued <==> m.pending(u));
            }
        }
        lemma_wake_wf(idle, t);
        assert(idle.wake(t).states =~= r.states);
    } else {
        assert forall|u: int| #![trigger r.states[u]] r.valid(u) implies (r.states[u]
            == TaskState::Queued <==> r.pending(u)) by {
            assert(m.states[u] == TaskState::Queued <==> m.pending(u));
        }
    }
}

} // verus!
