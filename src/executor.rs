//! The executor: a fixed arena of task headers, the ready queue threaded
//! through them, and the batch of tasks claimed from it.
use vstd::prelude::*;
use crate::model::{
    lemma_claim_wf, lemma_end_poll_wf, lemma_spawn_wf, lemma_step_wf, lemma_wake_wf,
    lemma_free_slot_from, free_slot_from, Action, ExecModel,
};
use crate::run_queue::{RunQueue, same_states};
use crate::task::{TaskHeader, TaskRef, TaskState};

verus! {

/// Why a spawn failed.
#[derive(Clone, Copy, Debug, PartialEq, Eq, Structural)]
pub enum SpawnError {
    /// Every slot of the arena holds a task that has not finished.
    Busy,
}

pub struct Executor {
    headers: Vec<TaskHeader>,
    run_queue: RunQueue,
    /// Tasks claimed from the queue and not yet polled; the next one is last.
    batch: Vec<usize>,
}

/// The states of a sequence of headers.
pub open spec fn states_of(h: Seq<TaskHeader>) -> Seq<TaskState> {
    h.map_values(|x: TaskHeader| x.state)
}

impl View for Executor {
    type V = ExecModel;

    closed spec fn view(&self) -> ExecModel {
        ExecModel {
            states: states_of(self.headers@),
            queue: self.run_queue@,
            batch: self.batch@,
        }
    }
}

impl Executor {
    pub closed spec fn wf(&self) -> bool {
        self@.wf() && self.run_queue.wf(self.headers@)
    }

    /// An executor over `capacity` vacant slots.
    pub fn new(capacity: usize) -> (r: Executor)
        ensures
            r.wf(),
            r@ == ExecModel::empty(capacity as nat),
    {
        let mut headers: Vec<TaskHeader> = Vec::new();
        let mut i: usize = 0;
        while i < capacity
            invariant
                i <= capacity,
                headers@.len() == i,
                forall|j: int| 0 <= j < i ==> (#[trigger] headers@[j]) == (TaskHeader {
                    state: TaskState::Vacant,
                    link: None,
                }),
            decreases capacity - i,
        {
            headers.push(TaskHeader { state: TaskState::Vacant, link: None });
            i = i + 1;
        }
        let run_queue = RunQueue::new(Ghost(headers@));
        let r = Executor { headers, run_queue, batch: Vec::new() };
        assert(r@.states =~= ExecModel::empty(capacity as nat).states);
        r
    }

    /// Number of slots of the arena.
    pub fn capacity(&self) -> (r: usize)
        ensures
            r == self@.states.len(),
    {
        self.headers.len()
    }

    /// The state of task `t`.
    pub fn state(&self, t: TaskRef) -> (r: TaskState)
        requires
            self@.valid(t.index as int),
        ensures
            r == self@.states[t.index as int],
    {
        self.headers[t.index].state
    }

    /// Sets the state of slot `t`, leaving its link alone.
    fn set_state(&mut self, t: usize, s: TaskState)
        requires
            old(self).run_queue.wf(old(self).headers@),
            t < old(self).headers@.len(),
        ensures
            final(self).run_queue.wf(final(self).headers@),
            final(self)@ == (ExecModel {
                states: old(self)@.states.update(t as int, s),
                ..old(self)@
            }),
    {
        let ghost h0 = self.headers@;
        let mut hd = self.headers[t];
        hd.state = s;
        self.headers.set(t, hd);
        proof {
            self.run_queue.lemma_states_only(h0, self.headers@);
            assert(states_of(self.headers@) =~= states_of(h0).update(t as int, s));
        }
    }

    /// Pushes slot `t` onto the ready queue.
    fn push(&mut self, t: usize)
        requires
            old(self).run_queue.wf(old(self).headers@),
            t < old(self).headers@.len(),
            !old(self)@.queue.contains(t),
        ensures
            final(self).run_queue.wf(final(self).headers@),
            final(self)@ == (ExecModel { queue: seq![t] + old(self)@.queue, ..old(self)@ }),
    {
        let ghost h0 = self.headers@;
        self.run_queue.push(&mut self.headers, t);
        proof {
            assert(same_states(h0, self.headers@));
            assert(states_of(self.headers@) =~= states_of(h0));
        }
    }

    /// Spawns a task into the first free slot and queues it for its first
    /// poll; fails when every slot holds an unfinished task.
    pub fn spawn(&mut self) -> (r: Result<TaskRef, SpawnError>)
        requires
            old(self).wf(),
        ensures
            final(self).wf(),
            final(self)@ == old(self)@.spawn(),
            match r {
                Ok(t) => {
                    &&& old(self)@.free_slot() == Some(t.index as int)
                    &&& old(self)@.valid(t.index as int)
                    &&& old(self)@.states[t.index as int].is_free()
                    &&& forall|j: int|
                        0 <= j < t.index ==> !(#[trigger] old(self)@.states[j]).is_free()
                },
                Err(e) => {
                    &&& e == SpawnError::Busy
                    &&& old(self)@.free_slot() is None
                    &&& forall|j: int|
                        old(self)@.valid(j) ==> !(#[trigger] old(self)@.states[j]).is_free()
                },
            },
    {
        proof {
            lemma_free_slot_from(self@.states, 0);
        }
        let n = self.headers.len();
        let mut i: usize = 0;
        while i < n
            invariant
                self.wf(),
                self@ == old(self)@,
                n == self@.states.len(),
                i <= n,
                free_slot_from(self@.states, 0) == free_slot_from(self@.states, i as int),
                forall|j: int| 0 <= j < i ==> !(#[trigger] self@.states[j]).is_free(),
            decreases n - i,
        {
            if self.headers[i].state.free() {
                proof {
                    lemma_spawn_wf(self@);
                    assert(!self@.pending(i as int));
                }
                self.set_state(i, TaskState::Queued);
                self.push(i);
                return Ok(TaskRef { index: i });
            }
            i = i + 1;
        }
        Err(SpawnError::Busy)
    }

    /// Wakes task `t`: an idle task is queued, a running one is marked to be
    /// queued again when its poll returns, a queued one is left as it is.
    pub fn wake_task(&mut self, t: TaskRef)
        requires
            old(self).wf(),
            old(self)@.valid(t.index as int),
            old(self)@.states[t.index as int].is_live(),
        ensures
            final(self).wf(),
            final(self)@ == old(self)@.wake(t.index as int),
    {
        proof {
            lemma_wake_wf(self@, t.index as int);
        }
        let i = t.index;
        match self.headers[i].state {
            TaskState::Idle => {
                assert(!self@.pending(i as int));
                self.set_state(i, TaskState::Queued);
                self.push(i);
            },
            TaskState::Running => {
                self.set_state(i, TaskState::RunningWoken);
            },
            _ => {},
        }
    }

    /// Claims the whole ready queue at once into the batch of tasks to poll.
    pub fn claim(&mut self)
        requires
            old(self).wf(),
        ensures
            final(self).wf(),
            final(self)@ == old(self)@.claim(),
    {
        proof {
            lemma_claim_wf(self@);
        }
        let ghost h0 = self.headers@;
        self.run_queue.take_all(&mut self.headers, &mut self.batch);
        proof {
            assert(states_of(self.headers@) =~= states_of(h0));
        }
    }

    /// One decision of the poll loop: claims the queue when no claimed task
    /// is left, then starts the poll of the next claimed task, or parks when
    /// nothing is ready.
    pub fn step(&mut self) -> (r: Action)
        requires
            old(self).wf(),
        ensures
            final(self).wf(),
            final(self)@ == old(self)@.step(),
            r == old(self)@.step_action(),
    {
        proof {
            lemma_step_wf(self@);
        }
        if self.batch.len() == 0 {
            self.claim();
        }
        match self.batch.pop() {
            None => Action::Park,
            Some(t) => {
                self.set_state(t, TaskState::Running);
                Action::Poll(TaskRef { index: t })
            },
        }
    }

    /// Ends the poll of running task `t`: a completed task is finished; a
    /// suspended one is queued again if it was woken during the poll, and
    /// idle otherwise.
    pub fn end_poll(&mut self, t: TaskRef, completed: bool)
        requires
            old(self).wf(),
            old(self)@.valid(t.index as int),
            old(self)@.states[t.index as int].is_running(),
        ensures
            final(self).wf(),
            final(self)@ == old(self)@.end_poll(t.index as int, completed),
    {
        proof {
            lemma_end_poll_wf(self@, t.index as int, completed);
            assert(!self@.pending(t.index as int));
        }
        let i = t.index;
        if completed {
            self.set_state(i, TaskState::Finished);
        } else if self.headers[i].state == TaskState::RunningWoken {
            self.set_state(i, TaskState::Queued);
            self.push(i);
        } else {
            self.set_state(i, TaskState::Idle);
        }
    }
}

} // verus!
