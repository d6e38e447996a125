use embassy::executor::{Executor, SpawnError};
use embassy::model::Action;
use embassy::task::{TaskRef, TaskState};
use embassy::waker::{from_task, task_from_waker, try_task_from_waker, WakeHandle, WakerError, VTABLE};

fn poll_target(a: Action) -> TaskRef {
    match a {
        Action::Poll(t) => t,
        Action::Park => panic!("expected a task to poll"),
    }
}

#[test]
fn new_executor_has_vacant_slots() {
    let ex = Executor::new(2);
    assert_eq!(ex.capacity(), 2);
    assert_eq!(ex.state(TaskRef { index: 0 }), TaskState::Vacant);
    assert_eq!(ex.state(TaskRef { index: 1 }), TaskState::Vacant);
}

#[test]
fn empty_executor_parks() {
    let mut ex = Executor::new(4);
    assert_eq!(ex.step(), Action::Park);
}

#[test]
fn spawn_queues_task_for_first_poll() {
    let mut ex = Executor::new(4);
    let t = ex.spawn().unwrap();
    assert_eq!(t.index, 0);
    assert_eq!(ex.state(t), TaskState::Queued);
    assert_eq!(ex.step(), Action::Poll(t));
    assert_eq!(ex.state(t), TaskState::Running);
    ex.end_poll(t, false);
    assert_eq!(ex.state(t), TaskState::Idle);
    assert_eq!(ex.step(), Action::Park);
}

#[test]
fn capacity_boundary() {
    let k: usize = 3;
    let mut ex = Executor::new(k);
    for i in 0..k {
        assert_eq!(ex.spawn().map(|t| t.index), Ok(i));
    }
    assert_eq!(ex.spawn(), Err(SpawnError::Busy));
    assert_eq!(ex.spawn(), Err(SpawnError::Busy));
}

#[test]
fn zero_capacity_is_busy() {
    let mut ex = Executor::new(0);
    assert_eq!(ex.spawn(), Err(SpawnError::Busy));
}

#[test]
fn finished_slot_is_reused() {
    let mut ex = Executor::new(2);
    let a = ex.spawn().unwrap();
    let b = ex.spawn().unwrap();
    assert_eq!(ex.spawn(), Err(SpawnError::Busy));
    let first = poll_target(ex.step());
    assert_eq!(first, a);
    ex.end_poll(a, true);
    assert_eq!(ex.state(a), TaskState::Finished);
    assert_eq!(ex.spawn(), Ok(a));
    assert_eq!(ex.state(b), TaskState::Queued);
}

#[test]
fn wake_before_claim_is_not_lost() {
    let mut ex = Executor::new(3);
    let a = ex.spawn().unwrap();
    let b = ex.spawn().unwrap();
    assert_eq!(poll_target(ex.step()), a);
    ex.end_poll(a, false);
    assert_eq!(poll_target(ex.step()), b);
    ex.end_poll(b, false);
    assert_eq!(ex.step(), Action::Park);
    ex.wake_task(b);
    ex.wake_task(a);
    ex.claim();
    let mut seen = vec![poll_target(ex.step()), poll_target(ex.step())];
    seen.sort_by_key(|t| t.index);
    assert_eq!(seen, vec![a, b]);
}

#[test]
fn second_wake_while_queued_is_a_no_op() {
    let mut ex = Executor::new(2);
    let a = ex.spawn().unwrap();
    ex.wake_task(a);
    ex.wake_task(a);
    assert_eq!(ex.state(a), TaskState::Queued);
    assert_eq!(ex.step(), Action::Poll(a));
    ex.end_poll(a, false);
    assert_eq!(ex.step(), Action::Park);
}

#[test]
fn many_wakes_during_poll_give_one_more_poll() {
    let n: usize = 5;
    let mut ex = Executor::new(2);
    let a = ex.spawn().unwrap();
    assert_eq!(ex.step(), Action::Poll(a));
    for _ in 0..n {
        ex.wake_task(a);
        assert_eq!(ex.state(a), TaskState::RunningWoken);
    }
    ex.end_poll(a, false);
    assert_eq!(ex.state(a), TaskState::Queued);
    assert_eq!(ex.step(), Action::Poll(a));
    ex.end_poll(a, false);
    assert_eq!(ex.state(a), TaskState::Idle);
    assert_eq!(ex.step(), Action::Park);
}

#[test]
fn no_wake_during_poll_leaves_task_idle() {
    let mut ex = Executor::new(1);
    let a = ex.spawn().unwrap();
    assert_eq!(ex.step(), Action::Poll(a));
    ex.end_poll(a, false);
    assert_eq!(ex.state(a), TaskState::Idle);
    assert_eq!(ex.step(), Action::Park);
}

#[test]
fn wake_during_poll_then_completion_finishes() {
    let mut ex = Executor::new(1);
    let a = ex.spawn().unwrap();
    assert_eq!(ex.step(), Action::Poll(a));
    ex.wake_task(a);
    ex.end_poll(a, true);
    assert_eq!(ex.state(a), TaskState::Finished);
    assert_eq!(ex.step(), Action::Park);
}

#[test]
fn claimed_tasks_are_polled_once_each() {
    let mut ex = Executor::new(3);
    let a = ex.spawn().unwrap();
    let b = ex.spawn().unwrap();
    let c = ex.spawn().unwrap();
    ex.claim();
    let mut polled = Vec::new();
    for _ in 0..3 {
        let t = poll_target(ex.step());
        polled.push(t);
        ex.end_poll(t, false);
    }
    assert_eq!(ex.step(), Action::Park);
    polled.sort_by_key(|t| t.index);
    assert_eq!(polled, vec![a, b, c]);
}

#[test]
fn claim_drains_in_push_order() {
    let mut ex = Executor::new(3);
    let a = ex.spawn().unwrap();
    let b = ex.spawn().unwrap();
    let c = ex.spawn().unwrap();
    assert_eq!(ex.step(), Action::Poll(a));
    assert_eq!(ex.step(), Action::Poll(b));
    assert_eq!(ex.step(), Action::Poll(c));
}

#[test]
fn wake_during_drain_goes_to_next_claim() {
    let mut ex = Executor::new(2);
    let a = ex.spawn().unwrap();
    let b = ex.spawn().unwrap();
    assert_eq!(ex.step(), Action::Poll(a));
    ex.end_poll(a, false);
    ex.wake_task(a);
    assert_eq!(ex.step(), Action::Poll(b));
    ex.end_poll(b, false);
    assert_eq!(ex.step(), Action::Poll(a));
    ex.end_poll(a, false);
    assert_eq!(ex.step(), Action::Park);
}

#[test]
fn handle_round_trips_to_its_task() {
    let t = TaskRef { index: 7 };
    let w = from_task(t);
    assert_eq!(w.vtable, VTABLE);
    assert_eq!(task_from_waker(&w), t);
    assert_eq!(try_task_from_waker(&w), Ok(t));
    let copy = w.clone();
    assert_eq!(task_from_waker(&copy), t);
}

#[test]
fn foreign_handle_is_reported() {
    let w = WakeHandle::new(VTABLE ^ 1, 7);
    assert_eq!(try_task_from_waker(&w), Err(WakerError::Foreign));
    let z = WakeHandle::new(0, 0);
    assert_eq!(try_task_from_waker(&z), Err(WakerError::Foreign));
}

#[test]
fn handle_wakes_its_task() {
    let mut ex = Executor::new(2);
    let a = ex.spawn().unwrap();
    let b = ex.spawn().unwrap();
    let wa = from_task(a);
    let wb = from_task(b);
    assert_eq!(ex.step(), Action::Poll(a));
    ex.end_poll(a, false);
    assert_eq!(ex.step(), Action::Poll(b));
    ex.end_poll(b, false);
    wb.wake_by_ref(&mut ex);
    assert_eq!(ex.state(a), TaskState::Idle);
    assert_eq!(ex.state(b), TaskState::Queued);
    wa.wake(&mut ex);
    assert_eq!(ex.state(a), TaskState::Queued);
}

#[test]
fn interrupt_wake_completes_task_within_one_claim() {
    let mut ex = Executor::new(1);
    let mut condition = false;
    let t = ex.spawn().unwrap();
    let waker = from_task(t);

    assert_eq!(ex.step(), Action::Poll(t));
    ex.end_poll(t, condition);
    assert_eq!(ex.state(t), TaskState::Idle);
    assert_eq!(ex.step(), Action::Park);

    condition = true;
    waker.wake_by_ref(&mut ex);

    assert_eq!(ex.step(), Action::Poll(t));
    ex.end_poll(t, condition);
    assert_eq!(ex.state(t), TaskState::Finished);
    assert_eq!(ex.step(), Action::Park);
}
