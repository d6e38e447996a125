//! What the scheduler guarantees, stated over the model of `model.rs` and
//! proved for every well-formed state.
use vstd::prelude::*;
use vstd::seq_lib::{lemma_no_dup_in_concat, to_multiset_contains};
use crate::model::{
    lemma_claim_wf, lemma_end_poll_wf, lemma_free_slot_from, lemma_spawn_wf,
    lemma_wake_wf, Action, ExecModel,
};
use crate::task::{TaskRef, TaskState};

verus! {

/// An operation that may happen between a wake and the next claim.
pub enum Event {
    Wake(int),
    Spawn,
    /// The end of the poll of a running task; ignored for any other task.
    EndPoll(int, bool),
}

impl ExecModel {
    /// The model after event `e`.
    pub open spec fn apply(self, e: Event) -> ExecModel {
        match e {
            Event::Wake(u) => self.wake(u),
            Event::Spawn => self.spawn(),
            Event::EndPoll(u, completed) => if self.valid(u) && self.states[u].is_running() {
                self.end_poll(u, completed)
            } else {
                self
            },
        }
    }

    /// The model after the events of `es`, in order.
    pub open spec fn apply_all(self, es: Seq<Event>) -> ExecModel
        decreases es.len(),
    {
        if es.len() == 0 {
            self
        } else {
            self.apply(es[0]).apply_all(es.drop_first())
        }
    }

    /// How many entries task `t` has in the ready queue and the claimed batch
    /// together.
    pub open spec fn entries(self, t: int) -> nat {
        (self.queue + self.batch).to_multiset().count(t as usize)
    }

    /// Wakes task `t` `n` times.
    pub open spec fn wake_n(self, t: int, n: nat) -> ExecModel
        decreases n,
    {
        if n == 0 {
            self
        } else {
            self.wake(t).wake_n(t, (n - 1) as nat)
        }
    }

    /// Spawns `n` times.
    pub open spec fn spawn_n(self, n: nat) -> ExecModel
        decreases n,
    {
        if n == 0 {
            self
        } else {
            self.spawn_n((n - 1) as nat).spawn()
        }
    }
}

/// A task has at most one entry in the ready queue and claimed batch: one
/// exactly when it is queued, none otherwise.
pub proof fn lemma_at_most_one_entry(m: ExecModel, t: int)
    requires
        m.wf(),
        m.valid(t),
    ensures
        m.entries(t) == (if m.states[t] == TaskState::Queued {
            1nat
        } else {
            0nat
        }),
{
    let s = m.queue + m.batch;
    lemma_no_dup_in_concat(m.queue, m.batch);
    s.lemma_multiset_has_no_duplicates();
    to_multiset_contains(s, t as usize);
    assert(m.states[t] == TaskState::Queued <==> m.pending(t));
    if m.queue.contains(t as usize) {
        let k = choose|k: int| 0 <= k < m.queue.len() && m.queue[k] == t as usize;
        assert(s[k] == t as usize);
    }
    if m.batch.contains(t as usize) {
        let k = choose|k: int| 0 <= k < m.batch.len() && m.batch[k] == t as usize;
        assert(s[m.queue.len() + k] == t as usize);
    }
    if s.contains(t as usize) {
        let k = choose|k: int| 0 <= k < s.len() && s[k] == t as usize;
        if k < m.queue.len() {
            assert(m.queue[k] == t as usize);
        } else {
            assert(m.batch[k - m.queue.len()] == t as usize);
        }
    }
}

/// Waking twice is waking once, and a wake of a queued task changes nothing:
/// a task is never linked twice.
pub proof fn lemma_wake_idempotent(m: ExecModel, t: int)
    requires
        m.wf(),
    ensures
        m.wake(t).wake(t) == m.wake(t),
        m.valid(t) && m.states[t] == TaskState::Queued ==> m.wake(t) == m,
        m.valid(t) ==> m.wake(t).entries(t) <= 1,
{
    lemma_wake_wf(m, t);
    if m.valid(t) {
        lemma_at_most_one_entry(m.wake(t), t);
    }
}

/// A wake of a queued or idle task that happens before a claim puts the task
/// in that claim's batch, once, whatever other wakes, spawns and poll
/// completions come in between.
pub proof fn lemma_no_lost_wakeup(m: ExecModel, t: int, others: Seq<Event>)
    requires
        m.wf(),
        m.valid(t),
        m.states[t] == TaskState::Idle || m.states[t] == TaskState::Queued,
    ensures
        m.wake(t).apply_all(others).claim().batch.contains(t as usize),
        m.wake(t).apply_all(others).claim().entries(t) == 1,
{
    lemma_wake_wf(m, t);
    lemma_queued_stays_queued(m.wake(t), t, others);
    let q = m.wake(t).apply_all(others);
    lemma_claim_wf(q);
    lemma_at_most_one_entry(q.claim(), t);
    assert(q.pending(t));
    if q.queue.contains(t as usize) {
        let k = choose|k: int| 0 <= k < q.queue.len() && q.queue[k] == t as usize;
        assert(q.claim().batch[q.batch.len() + k] == t as usize);
    } else {
        let k = choose|k: int| 0 <= k < q.batch.len() && q.batch[k] == t as usize;
        assert(q.claim().batch[k] == t as usize);
    }
}

/// Events keep a queued task queued and the model well formed.
pub proof fn lemma_queued_stays_queued(m: ExecModel, t: int, ts: Seq<Event>)
    requires
        m.wf(),
        m.valid(t),
        m.states[t] == TaskState::Queued,
    ensures
        m.apply_all(ts).wf(),
        m.apply_all(ts).valid(t),
        m.apply_all(ts).states[t] == TaskState::Queued,
    decreases ts.len(),
{
    if ts.len() > 0 {
        match ts[0] {
            Event::Wake(u) => lemma_wake_wf(m, u),
            Event::Spawn => {
                lemma_spawn_wf(m);
                lemma_free_slot_from(m.states, 0);
            },
            Event::EndPoll(u, completed) => if m.valid(u) && m.states[u].is_running() {
                lemma_end_poll_wf(m, u, completed);
            },
        }
        lemma_queued_stays_queued(m.apply(ts[0]), t, ts.drop_first());
    }
}

/// Any number of wakes of a running task, then the end of its poll without
/// completion, leave it queued with exactly one entry when there was at
/// least one wake, and idle with none otherwise.
pub proof fn lemma_wakes_during_poll(m: ExecModel, t: int, n: nat)
    requires
        m.wf(),
        m.valid(t),
        m.states[t] == TaskState::Running,
    ensures
        m.wake_n(t, n).end_poll(t, false).wf(),
        n > 0 ==> m.wake_n(t, n).end_poll(t, false).states[t] == TaskState::Queued,
        n > 0 ==> m.wake_n(t, n).end_poll(t, false).entries(t) == 1,
        n == 0 ==> m.wake_n(t, n).end_poll(t, false).states[t] == TaskState::Idle,
        n == 0 ==> m.wake_n(t, n).end_poll(t, false).entries(t) == 0,
{
    lemma_wake_n_running(m, t, n);
    let w = m.wake_n(t, n);
    lemma_end_poll_wf(w, t, false);
    lemma_at_most_one_entry(w.end_poll(t, false), t);
}

/// Wakes of a running task only mark it woken.
pub proof fn lemma_wake_n_running(m: ExecModel, t: int, n: nat)
    requires
        m.wf(),
        m.valid(t),
        m.states[t] == TaskState::Running,
    ensures
        m.wake_n(t, n).wf(),
        m.wake_n(t, n).valid(t),
        m.wake_n(t, n).states[t] == (if n == 0 {
            TaskState::Running
        } else {
            TaskState::RunningWoken
        }),
    decreases n,
{
    if n > 0 {
        lemma_wake_wf(m, t);
        lemma_wake_n_woken(m.wake(t), t, (n - 1) as nat);
    }
}

/// Wakes of a task that is already marked woken change nothing.
pub proof fn lemma_wake_n_woken(m: ExecModel, t: int, n: nat)
    requires
        m.valid(t),
        m.states[t] == TaskState::RunningWoken,
    ensures
        m.wake_n(t, n) == m,
    decreases n,
{
    if n > 0 {
        lemma_wake_n_woken(m.wake(t), t, (n - 1) as nat);
    }
}

/// A claim takes every queued task into the batch exactly once and nothing
/// else, so that draining the batch polls each of them once.
pub proof fn lemma_claim_takes_each_once(m: ExecModel, t: int)
    requires
        m.wf(),
        m.batch.len() == 0,
        m.valid(t),
    ensures
        m.claim().batch.to_multiset().count(t as usize) == (if m.states[t] == TaskState::Queued {
            1nat
        } else {
            0nat
        }),
{
    lemma_at_most_one_entry(m, t);
    assert(m.queue + m.batch =~= m.claim().batch);
}

/// While claimed tasks are left, a step polls the last of them and claims
/// nothing.
pub proof fn lemma_step_drains_batch(m: ExecModel)
    requires
        m.batch.len() > 0,
    ensures
        m.step_action() == Action::Poll(TaskRef { index: m.batch.last() }),
        m.step().batch == m.batch.drop_last(),
        m.step().queue == m.queue,
{
}

/// In a fresh arena of `k` slots the first `k` spawns take slots `0` to
/// `k - 1` in turn, and the next one finds no free slot.
pub proof fn lemma_capacity(k: nat)
    ensures
        forall|i: nat| i < k ==> (#[trigger] ExecModel::empty(k).spawn_n(i)).free_slot() == Some(
            i as int,
        ),
        ExecModel::empty(k).spawn_n(k).free_slot() is None,
{
    assert forall|i: nat| i < k implies (#[trigger] ExecModel::empty(k).spawn_n(i)).free_slot()
        == Some(i as int) by {
        lemma_spawn_n_states(k, i);
        let s = ExecModel::empty(k).spawn_n(i).states;
        lemma_free_slot_from(s, 0);
        assert(s[i as int].is_free());
    }
    lemma_spawn_n_states(k, k);
    lemma_free_slot_from(ExecModel::empty(k).spawn_n(k).states, 0);
}

/// After `i` spawns into a fresh arena of `k` slots the first `i` slots are
/// queued and the others vacant.
pub proof fn lemma_spawn_n_states(k: nat, i: nat)
    requires
        i <= k,
    ensures
        ExecModel::empty(k).spawn_n(i).states.len() == k,
        forall|j: int|
            0 <= j < k ==> (#[trigger] ExecModel::empty(k).spawn_n(i).states[j]) == (if j < i {
                TaskState::Queued
            } else {
                TaskState::Vacant
            }),
    decreases i,
{
    if i > 0 {
        lemma_spawn_n_states(k, (i - 1) as nat);
        let p = ExecModel::empty(k).spawn_n((i - 1) as nat);
        lemma_free_slot_from(p.states, 0);
        assert(p.states[i - 1].is_free());
        assert(p.free_slot() == Some(i - 1));
    }
}

} // verus!
