//! The cooperative tier: ready set, executor, timers, sleeps and
//! synchronisation.
use rivet::executor::{
    clear_current_for_test, current_task, set_current_for_test, Action, CurrentTask, Event,
    Executor,
};
use rivet::port::arch::Harts;
use rivet::preempt::sched::Preempt;
use rivet::sync::{Channel, Once, Semaphore, Signal};
use rivet::task::{CellAction, Poll, TaskCell, TaskId, TaskReg};
use rivet::time::{Duration, Sleep};
use rivet::timer::{
    cancel_deadline, poll_timers, register_deadline, slots_in_use, TimerQueue, MAX_TIMERS,
};
use rivet::waker::{self, WakerState};
use std::cell::RefCell;
use std::future::Future;
use std::pin::Pin;
use std::rc::Rc;
use std::sync::Arc;

fn id(priority: u8, index: u8) -> TaskId {
    TaskId::new(priority, index)
}

#[test]
fn encode_decode_roundtrip() {
    let data = TaskId::new(5, 13).as_u16();
    let id = TaskId::from_u16(data);
    assert_eq!(id.priority(), 5);
    assert_eq!(id.index(), 13);
}

#[test]
fn mark_and_dequeue_single() {
    let mut w = WakerState::new();
    waker::mark_ready(&mut w, id(2, 0));
    assert_eq!(waker::next_ready(&mut w), Some(id(2, 0)));
    assert_eq!(waker::next_ready(&mut w), None);
}

#[test]
fn priority_ordering() {
    let mut w = WakerState::new();
    waker::mark_ready(&mut w, id(1, 0));
    waker::mark_ready(&mut w, id(5, 0));
    waker::mark_ready(&mut w, id(3, 0));
    assert_eq!(waker::next_ready(&mut w), Some(id(5, 0)));
    assert_eq!(waker::next_ready(&mut w), Some(id(3, 0)));
    assert_eq!(waker::next_ready(&mut w), Some(id(1, 0)));
    assert_eq!(waker::next_ready(&mut w), None);
}

#[test]
fn multiple_tasks_same_priority() {
    let mut w = WakerState::new();
    waker::mark_ready(&mut w, id(3, 0));
    waker::mark_ready(&mut w, id(3, 1));
    waker::mark_ready(&mut w, id(3, 2));
    assert_eq!(waker::next_ready(&mut w), Some(id(3, 0)));
    assert_eq!(waker::next_ready(&mut w), Some(id(3, 1)));
    assert_eq!(waker::next_ready(&mut w), Some(id(3, 2)));
    assert_eq!(waker::next_ready(&mut w), None);
}

#[test]
fn interleaved_wake() {
    let mut w = WakerState::new();
    waker::mark_ready(&mut w, id(2, 0));
    assert_eq!(waker::next_ready(&mut w), Some(id(2, 0)));
    assert_eq!(waker::next_ready(&mut w), None);
    waker::mark_ready(&mut w, id(2, 0));
    waker::mark_ready(&mut w, id(4, 1));
    assert_eq!(waker::next_ready(&mut w), Some(id(4, 1)));
    assert_eq!(waker::next_ready(&mut w), Some(id(2, 0)));
    assert_eq!(waker::next_ready(&mut w), None);
}

#[test]
fn has_pending_detects_work() {
    let mut w = WakerState::new();
    assert!(!waker::has_pending(&w));
    waker::mark_ready(&mut w, id(0, 0));
    assert!(waker::has_pending(&w));
    waker::next_ready(&mut w);
    waker::clear_pend(&mut w);
    assert!(!waker::has_pending(&w));
}

#[test]
fn waker_mark_and_dequeue() {
    let mut w = WakerState::new();
    waker::mark_ready(&mut w, id(2, 0));
    waker::mark_ready(&mut w, id(5, 0));
    waker::mark_ready(&mut w, id(1, 0));

    assert_eq!(waker::next_ready(&mut w), Some(id(5, 0)));
    assert_eq!(waker::next_ready(&mut w), Some(id(2, 0)));
    assert_eq!(waker::next_ready(&mut w), Some(id(1, 0)));
    assert_eq!(waker::next_ready(&mut w), None);
}

#[test]
fn waker_no_lost_wakeups_single_producer() {
    let mut w = WakerState::new();
    for i in 0..2u8 {
        waker::mark_ready(&mut w, id(2, i));
    }
    let mut seen = [false; 2];
    while let Some(id) = waker::next_ready(&mut w) {
        assert_eq!(id.priority(), 2, "unexpected priority");
        let idx = id.index() as usize;
        assert!(!seen[idx], "task {idx} dequeued twice");
        seen[idx] = true;
    }
    assert!(seen.iter().all(|&s| s), "lost wakeups: {seen:?}");
}

#[test]
fn wake_task_tells_the_other_harts() {
    let mut w = WakerState::new();
    let mut h = Harts::new();
    waker::wake_task(&mut w, &mut h, id(4, 2));
    assert!(!h.resched[0]);
    assert!(h.resched[1]);
    assert_eq!(waker::next_ready(&mut w), Some(id(4, 2)));
    waker::reset(&mut w);
    assert!(!waker::has_pending(&w));
}

#[test]
fn executor_polls_by_priority_then_sleeps() {
    let regs = [
        TaskReg { priority: 1, index_in_priority: 0, cell: 0 },
        TaskReg { priority: 3, index_in_priority: 0, cell: 1 },
        TaskReg { priority: 1, index_in_priority: 0, cell: 2 },
    ];
    let mut e = Executor::new();
    let mut w = WakerState::new();
    let mut c = CurrentTask::new();
    e.init(&mut w, &regs);
    assert_eq!(e.live_tasks, 3);
    assert_eq!(e.registry.total, 3);
    assert_eq!(e.registry.count_per_priority[1], 2);
    assert_eq!(e.lookup_task(1, 1), Some(2));
    assert_eq!(e.lookup_task(1, 2), None);
    assert_eq!(e.lookup_task(40, 0), None);
    let mut completed = [false; 3];

    let a = e.run(&mut w, &mut c, Event::Begin, &completed);
    assert_eq!(a, Action::Poll { task: id(3, 0), cell: 1 });
    assert_eq!(current_task(&c), Some(id(3, 0)));
    completed[1] = true;
    let a = e.run(&mut w, &mut c, Event::Polled(Poll::Ready(())), &completed);
    assert_eq!(a, Action::Poll { task: id(1, 0), cell: 0 });
    assert_eq!(e.live_tasks, 2);
    // The first task wakes the completed one; the wake leads to no poll.
    waker::mark_ready(&mut w, id(3, 0));
    let a = e.run(&mut w, &mut c, Event::Polled(Poll::Pending), &completed);
    assert_eq!(a, Action::Poll { task: id(1, 1), cell: 2 });
    let a = e.run(&mut w, &mut c, Event::Polled(Poll::Pending), &completed);
    assert_eq!(a, Action::Again);
    assert_eq!(current_task(&c), None);
    let a = e.run(&mut w, &mut c, Event::Begin, &completed);
    assert_eq!(a, Action::Sleep);
    // An unknown task is ignored as well.
    waker::mark_ready(&mut w, id(9, 9));
    let a = e.run(&mut w, &mut c, Event::Begin, &completed);
    assert_eq!(a, Action::Sleep);
    assert_eq!(e.live_tasks, 2);
}

#[test]
fn register_and_expire() {
    let mut t = TimerQueue::new();
    let mut w = WakerState::new();
    let mut p = Preempt::new();
    register_deadline(&mut t, 1000, id(3, 2)).unwrap();
    poll_timers(&mut t, &mut w, &mut p, 500);
    assert_eq!(waker::next_ready(&mut w), None);

    poll_timers(&mut t, &mut w, &mut p, 1000);
    assert_eq!(waker::next_ready(&mut w), Some(id(3, 2)));
}

#[test]
fn multiple_timers_independent() {
    let mut t = TimerQueue::new();
    let mut w = WakerState::new();
    let mut p = Preempt::new();
    register_deadline(&mut t, 100, id(1, 0)).unwrap();
    register_deadline(&mut t, 200, id(2, 0)).unwrap();

    poll_timers(&mut t, &mut w, &mut p, 150);
    assert_eq!(waker::next_ready(&mut w), Some(id(1, 0)));
    assert_eq!(waker::next_ready(&mut w), None);

    poll_timers(&mut t, &mut w, &mut p, 250);
    assert_eq!(waker::next_ready(&mut w), Some(id(2, 0)));
}

#[test]
fn timer_fires_exactly_once() {
    let mut t = TimerQueue::new();
    let mut w = WakerState::new();
    let mut p = Preempt::new();
    register_deadline(&mut t, 700, id(6, 1)).unwrap();
    let mut fired = Vec::new();
    for now in [100, 699, 700, 701, 5000] {
        poll_timers(&mut t, &mut w, &mut p, now);
        if waker::next_ready(&mut w).is_some() {
            fired.push(now);
        }
    }
    assert_eq!(fired, vec![700]);
}

#[test]
fn timer_queue_fills_up_and_stale_handles_cancel_nothing() {
    let mut t = TimerQueue::new();
    let mut w = WakerState::new();
    let mut p = Preempt::new();
    let first = register_deadline(&mut t, 10, id(1, 0)).unwrap();
    for i in 1..MAX_TIMERS {
        register_deadline(&mut t, 1000 + i as u64, id(1, 1)).unwrap();
    }
    assert_eq!(slots_in_use(&t), MAX_TIMERS);
    assert!(register_deadline(&mut t, 5, id(1, 2)).is_err());
    poll_timers(&mut t, &mut w, &mut p, 10);
    assert_eq!(slots_in_use(&t), MAX_TIMERS - 1);
    // The slot is taken again, for another time: the old handle is stale.
    register_deadline(&mut t, 77, id(1, 2)).unwrap();
    cancel_deadline(&mut t, first);
    assert_eq!(slots_in_use(&t), MAX_TIMERS);
}

#[test]
fn stale_handle_spares_a_sleep_with_the_same_deadline() {
    let mut t = TimerQueue::new();
    let mut w = WakerState::new();
    let mut p = Preempt::new();
    let h1 = register_deadline(&mut t, 100, id(1, 0)).unwrap();
    poll_timers(&mut t, &mut w, &mut p, 100);
    assert_eq!(waker::next_ready(&mut w), Some(id(1, 0)));
    register_deadline(&mut t, 100, id(2, 0)).unwrap();
    cancel_deadline(&mut t, h1);
    assert_eq!(slots_in_use(&t), 1);
    poll_timers(&mut t, &mut w, &mut p, 100);
    assert_eq!(waker::next_ready(&mut w), Some(id(2, 0)));
}

#[test]
fn cancelled_deadline_does_not_fire() {
    let mut t = TimerQueue::new();
    let mut w = WakerState::new();
    let mut p = Preempt::new();
    let h = register_deadline(&mut t, 300, id(1, 0)).unwrap();
    cancel_deadline(&mut t, h);
    poll_timers(&mut t, &mut w, &mut p, 400);
    assert_eq!(waker::next_ready(&mut w), None);
    assert_eq!(slots_in_use(&t), 0);
}

#[test]
fn sleep_that_is_over_wakes_nobody_later() {
    let mut t = TimerQueue::new();
    let mut w = WakerState::new();
    let mut p = Preempt::new();
    let me = Some(id(2, 3));
    let mut s = Sleep::<500>::new();
    assert_eq!(s.poll(&mut t, 1000, me), Poll::Pending);
    // Polled after its deadline, but before the timer came to it.
    assert_eq!(s.poll(&mut t, 1600, me), Poll::Ready(()));
    assert_eq!(slots_in_use(&t), 0);
    poll_timers(&mut t, &mut w, &mut p, 2000);
    assert_eq!(waker::next_ready(&mut w), None);
    let mut none = Sleep::<0>::new();
    assert_eq!(none.poll(&mut t, 3000, me), Poll::Ready(()));
    assert_eq!(slots_in_use(&t), 0);
}

#[test]
fn sleep_waits_for_its_deadline() {
    let mut t = TimerQueue::new();
    let mut w = WakerState::new();
    let mut p = Preempt::new();
    let me = Some(id(2, 3));
    let mut s = Sleep::<500>::new();
    assert_eq!(s.poll(&mut t, 1000, me), Poll::Pending);
    assert_eq!(s.deadline, 1500);
    assert_eq!(s.poll(&mut t, 1400, me), Poll::Pending);
    poll_timers(&mut t, &mut w, &mut p, 1500);
    assert_eq!(waker::next_ready(&mut w), me);
    assert_eq!(s.poll(&mut t, 1500, me), Poll::Ready(()));
    assert_eq!(slots_in_use(&t), 0);
}

#[test]
fn sleep_given_up_frees_its_slot() {
    let mut t = TimerQueue::new();
    let mut s = Sleep::<500>::new();
    assert_eq!(s.poll(&mut t, 0, Some(id(0, 0))), Poll::Pending);
    assert_eq!(slots_in_use(&t), 1);
    s.cancel(&mut t);
    assert_eq!(slots_in_use(&t), 0);
    // A deadline that would be zero is one.
    let mut wrapped = Sleep::<1>::new();
    assert_eq!(wrapped.poll(&mut t, u64::MAX, Some(id(0, 0))), Poll::Ready(()));
    assert_eq!(wrapped.deadline, 1);
}

#[test]
fn durations_convert() {
    assert_eq!(Duration::from_millis(3).as_micros(), 3000);
    assert_eq!(Duration::from_micros(2999).as_millis(), 2);
}

#[test]
fn send_recv_roundtrip() {
    let mut w = WakerState::new();
    let mut chan: Channel<u32, 8> = Channel::new();
    let (tx, rx) = chan.split().expect("split once");

    assert!(tx.try_send(&mut chan, &mut w, 42).is_ok());
    assert_eq!(rx.try_recv(&mut chan, &mut w), Some(42));
    assert_eq!(rx.try_recv(&mut chan, &mut w), None);
}

#[test]
fn full_channel_blocks_send() {
    let mut w = WakerState::new();
    let mut chan: Channel<u32, 3> = Channel::new();
    let (tx, rx) = chan.split().expect("split once");

    assert!(tx.try_send(&mut chan, &mut w, 1).is_ok());
    assert!(tx.try_send(&mut chan, &mut w, 2).is_ok());
    assert_eq!(tx.try_send(&mut chan, &mut w, 3), Err(3));

    assert_eq!(rx.try_recv(&mut chan, &mut w), Some(1));
    assert!(tx.try_send(&mut chan, &mut w, 3).is_ok());
    assert_eq!(rx.try_recv(&mut chan, &mut w), Some(2));
    assert_eq!(rx.try_recv(&mut chan, &mut w), Some(3));
}

#[test]
fn empty_channel_try_recv_none() {
    let mut w = WakerState::new();
    let mut chan: Channel<u32, 4> = Channel::new();
    let (_tx, rx) = chan.split().expect("split once");
    assert_eq!(rx.try_recv(&mut chan, &mut w), None);
}

#[test]
fn recv_future_ready_when_data_present() {
    let mut w = WakerState::new();
    let mut chan: Channel<u32, 4> = Channel::new();
    let (tx, rx) = chan.split().expect("split once");
    tx.try_send(&mut chan, &mut w, 7).unwrap();

    let mut fut = rx.recv();
    assert_eq!(fut.poll(&rx, &mut chan, &mut w, None), Poll::Ready(7));
}

#[test]
fn channel_send_recv_roundtrip() {
    let mut w = WakerState::new();
    let mut chan: Channel<u32, 8> = Channel::new();
    let (tx, rx) = chan.split().expect("split once");

    assert!(tx.try_send(&mut chan, &mut w, 42).is_ok());
    assert_eq!(rx.try_recv(&mut chan, &mut w), Some(42));
    assert_eq!(rx.try_recv(&mut chan, &mut w), None);
}

#[test]
fn channel_full_then_drain() {
    let mut w = WakerState::new();
    let mut chan: Channel<u32, 3> = Channel::new();
    let (tx, rx) = chan.split().expect("split once");

    assert!(tx.try_send(&mut chan, &mut w, 1).is_ok());
    assert!(tx.try_send(&mut chan, &mut w, 2).is_ok());
    assert_eq!(tx.try_send(&mut chan, &mut w, 3), Err(3));

    assert_eq!(rx.try_recv(&mut chan, &mut w), Some(1));
    assert!(tx.try_send(&mut chan, &mut w, 3).is_ok());
    assert_eq!(rx.try_recv(&mut chan, &mut w), Some(2));
    assert_eq!(rx.try_recv(&mut chan, &mut w), Some(3));
}

#[test]
fn channel_splits_once() {
    let mut chan: Channel<u8, 2> = Channel::new();
    assert!(chan.front().is_none());
    assert!(chan.split().is_some());
    assert!(chan.split().is_none());
    let mut empty: Channel<u8, 0> = Channel::new();
    assert!(empty.split().is_some());
    assert!(empty.split().is_none());
}

#[test]
fn channel_spsc_every_value_received_exactly_once() {
    let mut w = WakerState::new();
    let mut chan: Channel<u32, 4> = Channel::new();
    let (tx, rx) = chan.split().expect("split once");
    let mut got = Vec::new();
    let mut next = 1u32;
    while got.len() < 3 {
        if next <= 3 && tx.try_send(&mut chan, &mut w, next).is_ok() {
            next += 1;
        }
        if let Some(v) = rx.try_recv(&mut chan, &mut w) {
            got.push(v);
        }
    }
    assert_eq!(got, vec![1, 2, 3], "SPSC values lost, duplicated, or reordered");
}

#[test]
fn blocked_send_is_woken_by_receive() {
    let mut w = WakerState::new();
    let mut chan: Channel<u32, 2> = Channel::new();
    let (tx, rx) = chan.split().unwrap();
    tx.try_send(&mut chan, &mut w, 1).unwrap();
    let mut fut = tx.send(2);
    assert_eq!(fut.poll(&tx, &mut chan, &mut w, Some(id(4, 1))), Poll::Pending);
    assert_eq!(chan.front(), Some(&1));
    assert_eq!(rx.try_recv(&mut chan, &mut w), Some(1));
    assert_eq!(waker::next_ready(&mut w), Some(id(4, 1)));
    assert_eq!(fut.poll(&tx, &mut chan, &mut w, Some(id(4, 1))), Poll::Ready(()));
    assert_eq!(rx.try_recv(&mut chan, &mut w), Some(2));
    // A receive that is given up is woken no more.
    let mut recv = rx.recv();
    assert_eq!(recv.poll(&rx, &mut chan, &mut w, Some(id(3, 0))), Poll::Pending);
    recv.clear_registration(&mut chan);
    tx.try_send(&mut chan, &mut w, 9).unwrap();
    assert_eq!(waker::next_ready(&mut w), None);
}

#[test]
fn semaphore_semaphore_try_acquire_release() {
    let mut w = WakerState::new();
    let mut sem: Semaphore<3> = Semaphore::new(1);
    assert!(sem.try_acquire());
    assert!(!sem.try_acquire());
    sem.release(&mut w);
    assert!(sem.try_acquire());
}

#[test]
fn integration_semaphore_try_acquire_release() {
    let mut w = WakerState::new();
    let mut sem: Semaphore<3> = Semaphore::new(1);
    assert!(sem.try_acquire());
    assert!(!sem.try_acquire());
    sem.release(&mut w);
    assert!(sem.try_acquire());
}

#[test]
fn semaphore_counting() {
    let mut w = WakerState::new();
    let mut sem: Semaphore<3> = Semaphore::new(2);
    assert!(sem.try_acquire());
    assert!(sem.try_acquire());
    assert!(!sem.try_acquire());
    sem.release(&mut w);
    assert!(sem.try_acquire());
    assert!(!sem.try_acquire());
}

#[test]
fn semaphore_count_is_bounded() {
    let mut w = WakerState::new();
    let mut sem: Semaphore<2> = Semaphore::new(1);
    sem.release(&mut w);
    sem.release(&mut w);
    sem.release(&mut w);
    assert_eq!(sem.count, 2);
}

#[test]
fn acquire_future_ready_when_available() {
    let mut sem: Semaphore<1> = Semaphore::new(1);
    let mut fut = sem.acquire();
    assert_eq!(fut.poll(&mut sem, None), Poll::Ready(()));
}

#[test]
fn two_waiters_both_woken() {
    let mut w = WakerState::new();
    let mut sem: Semaphore<1> = Semaphore::new(0);

    sem.register_waiter(id(1, 0));
    sem.register_waiter(id(2, 0));
    assert_eq!(sem.debug_waiters()[1], 1, "waiter (1,0)");
    assert_eq!(sem.debug_waiters()[2], 1, "waiter (2,0)");

    sem.release(&mut w);
    assert_eq!(waker::next_ready(&mut w), Some(id(2, 0)), "highest priority first");

    sem.release(&mut w);
    assert_eq!(waker::next_ready(&mut w), Some(id(1, 0)), "second waiter woken");
    assert_eq!(waker::next_ready(&mut w), None);
    assert_eq!(sem.debug_waiters()[1], 0);
    assert_eq!(sem.debug_waiters()[2], 0);
}

#[test]
fn remove_waiter_on_drop_clears_registration() {
    let mut sem: Semaphore<1> = Semaphore::new(0);
    sem.register_waiter(id(3, 1));
    assert_eq!(sem.debug_waiters()[3], 1 << 1);
    sem.remove_waiter(id(3, 1));
    assert_eq!(sem.debug_waiters()[3], 0);
}

#[test]
fn semaphore_acquire_future_blocks_then_wakes() {
    let mut w = WakerState::new();
    let mut c = CurrentTask::new();
    let mut sem: Semaphore<1> = Semaphore::new(0);

    set_current_for_test(&mut c, 1, 0);
    let mut fut = sem.acquire();
    assert_eq!(fut.poll(&mut sem, current_task(&c)), Poll::Pending);
    clear_current_for_test(&mut c);

    sem.release(&mut w);
    assert!(waker::has_pending(&w));
    assert_eq!(waker::next_ready(&mut w), Some(id(1, 0)));

    set_current_for_test(&mut c, 1, 0);
    let mut fut2 = sem.acquire();
    assert_eq!(fut2.poll(&mut sem, current_task(&c)), Poll::Ready(()));
    clear_current_for_test(&mut c);
}

#[test]
fn semaphore_single_waiter_no_lost_wakeup() {
    for release_first in [false, true] {
        let mut w = WakerState::new();
        let mut sem: Semaphore<1> = Semaphore::new(0);
        if release_first {
            sem.release(&mut w);
        }
        let mut fut = sem.acquire();
        let poll_ready = fut.poll(&mut sem, Some(id(1, 0))) == Poll::Ready(());
        // The future is dropped before or after the release.
        fut.cancel(&mut sem, &mut w);
        if !release_first {
            sem.release(&mut w);
        }
        assert!(
            poll_ready || waker::has_pending(&w) || sem.try_acquire(),
            "lost wakeup: waiter never woken, semaphore never released"
        );
    }
    let mut w = WakerState::new();
    let mut sem: Semaphore<1> = Semaphore::new(0);
    let mut fut = sem.acquire();
    let poll_ready = fut.poll(&mut sem, Some(id(1, 0))) == Poll::Ready(());
    sem.release(&mut w);
    fut.cancel(&mut sem, &mut w);
    assert!(
        poll_ready || waker::has_pending(&w) || sem.try_acquire(),
        "lost wakeup: waiter never woken, semaphore never released"
    );
}

#[test]
fn token_is_handed_to_the_waiter_alone() {
    let mut w = WakerState::new();
    let mut sem: Semaphore<1> = Semaphore::new(0);
    let mut fut = sem.acquire();
    assert_eq!(fut.poll(&mut sem, Some(id(1, 0))), Poll::Pending);
    sem.release(&mut w);
    // Nobody else can take it.
    assert!(!sem.try_acquire());
    let mut other = sem.acquire();
    assert_eq!(other.poll(&mut sem, Some(id(2, 5))), Poll::Pending);
    assert_eq!(fut.poll(&mut sem, Some(id(1, 0))), Poll::Ready(()));
    assert_eq!(fut.poll(&mut sem, Some(id(1, 0))), Poll::Pending);
}

#[test]
fn one_release_after_another_loses_no_token() {
    let mut w = WakerState::new();
    let mut sem: Semaphore<3> = Semaphore::new(0);
    sem.register_waiter(id(1, 0));
    sem.register_waiter(id(2, 0));
    sem.release(&mut w);
    sem.release(&mut w);
    sem.release(&mut w);
    assert_eq!(sem.count, 1);
    let mut first = sem.acquire();
    assert_eq!(first.poll(&mut sem, Some(id(1, 0))), Poll::Ready(()));
    let mut second = sem.acquire();
    assert_eq!(second.poll(&mut sem, Some(id(2, 0))), Poll::Ready(()));
    assert!(sem.try_acquire());
    assert!(!sem.try_acquire());
}

#[test]
fn handed_token_that_is_given_up_goes_to_the_next() {
    let mut w = WakerState::new();
    let mut sem: Semaphore<1> = Semaphore::new(0);
    let mut first = sem.acquire();
    assert_eq!(first.poll(&mut sem, Some(id(3, 0))), Poll::Pending);
    let mut second = sem.acquire();
    assert_eq!(second.poll(&mut sem, Some(id(1, 7))), Poll::Pending);
    sem.release(&mut w);
    assert_eq!(waker::next_ready(&mut w), Some(id(3, 0)));
    first.cancel(&mut sem, &mut w);
    assert_eq!(waker::next_ready(&mut w), Some(id(1, 7)));
    assert_eq!(second.poll(&mut sem, Some(id(1, 7))), Poll::Ready(()));
    assert!(!sem.try_acquire());
}

#[test]
fn semaphore_two_waiters_no_lost_wakeup() {
    let mut w = WakerState::new();
    let mut sem: Semaphore<1> = Semaphore::new(0);
    let mut first = sem.acquire();
    let poll1 = first.poll(&mut sem, Some(id(1, 0))) == Poll::Ready(());
    let mut second = sem.acquire();
    let poll2 = second.poll(&mut sem, Some(id(2, 0))) == Poll::Ready(());
    sem.release(&mut w);
    sem.release(&mut w);
    let mut marked: Vec<(u8, u8)> = Vec::new();
    while let Some(id) = waker::next_ready(&mut w) {
        marked.push((id.priority(), id.index()));
    }
    let w1_ok = poll1 || marked.contains(&(1, 0));
    let w2_ok = poll2 || marked.contains(&(2, 0));
    assert!(
        w1_ok && w2_ok,
        "[B9] lost wakeup: poll1={poll1} poll2={poll2} marked={marked:?}"
    );
}

#[test]
fn acquire_given_up_is_not_woken() {
    let mut w = WakerState::new();
    let mut sem: Semaphore<1> = Semaphore::new(0);
    let mut fut = sem.acquire();
    assert_eq!(fut.poll(&mut sem, Some(id(7, 3))), Poll::Pending);
    fut.cancel(&mut sem, &mut w);
    sem.release(&mut w);
    assert_eq!(waker::next_ready(&mut w), None);
    assert_eq!(sem.count, 1);
}

#[test]
fn try_take_false_when_unfired() {
    let mut sig = Signal::new();
    assert!(!sig.try_take());
}

#[test]
fn signal_then_try_take() {
    let mut w = WakerState::new();
    let mut h = Harts::new();
    let mut sig = Signal::new();
    sig.signal(&mut w, &mut h);
    assert!(sig.try_take());
    assert!(!sig.try_take(), "try_take consumes the latch");
}

#[test]
fn reset_clears_stale_latch() {
    let mut w = WakerState::new();
    let mut h = Harts::new();
    let mut sig = Signal::new();
    sig.signal(&mut w, &mut h);
    sig.reset();
    assert!(!sig.try_take());
}

#[test]
fn wait_ready_when_already_fired() {
    let mut w = WakerState::new();
    let mut h = Harts::new();
    let mut sig = Signal::new();
    sig.signal(&mut w, &mut h);
    let mut fut = sig.wait();
    assert_eq!(fut.poll(&mut sig, None), Poll::Ready(()));
}

#[test]
fn signal_after_registration_wakes() {
    let mut w = WakerState::new();
    let mut h = Harts::new();
    let mut c = CurrentTask::new();
    let mut sig = Signal::new();
    let me = id(1, 0);
    let mut fut = sig.wait();
    set_current_for_test(&mut c, me.priority(), me.index());
    assert_eq!(fut.poll(&mut sig, current_task(&c)), Poll::Pending);

    sig.signal(&mut w, &mut h);
    assert_eq!(waker::next_ready(&mut w), Some(me));
}

#[test]
fn drop_clears_registration_not_latch() {
    let mut w = WakerState::new();
    let mut h = Harts::new();
    let mut sig = Signal::new();
    let mut fut = sig.wait();
    assert_eq!(fut.poll(&mut sig, Some(id(2, 0))), Poll::Pending);
    fut.cancel(&mut sig);
    sig.signal(&mut w, &mut h);
    assert_eq!(waker::next_ready(&mut w), None);
}

#[test]
fn signal_during_cancellation_stays_observable() {
    let mut w = WakerState::new();
    let mut h = Harts::new();
    let mut sig = Signal::new();
    let mut fut = sig.wait();
    assert_eq!(fut.poll(&mut sig, Some(id(3, 0))), Poll::Pending);
    sig.signal(&mut w, &mut h);
    fut.cancel(&mut sig);
    assert!(sig.try_take());
}

#[test]
fn signal_no_lost_wakeup() {
    for signal_first in [false, true] {
        let mut w = WakerState::new();
        let mut h = Harts::new();
        let mut sig = Signal::new();
        if signal_first {
            sig.signal(&mut w, &mut h);
        }
        let mut fut = sig.wait();
        let poll_ready = fut.poll(&mut sig, Some(id(1, 0))) == Poll::Ready(());
        fut.cancel(&mut sig);
        if !signal_first {
            sig.signal(&mut w, &mut h);
        }
        assert!(
            poll_ready || waker::has_pending(&w) || sig.try_take(),
            "lost wakeup: waiter never woken, signal never observed"
        );
    }
}

#[test]
fn once_keeps_its_first_value() {
    let mut once: Once<u32> = Once::new();
    assert!(once.get().is_none());
    assert_eq!(once.set(5), Ok(()));
    assert_eq!(once.set(6), Err(6));
    assert_eq!(once.get(), Some(&5));
}

/// A future that is pending once.
struct TestYield {
    yielded: bool,
}

impl Future for TestYield {
    type Output = ();
    fn poll(
        mut self: Pin<&mut Self>,
        cx: &mut std::task::Context<'_>,
    ) -> std::task::Poll<()> {
        if self.yielded {
            std::task::Poll::Ready(())
        } else {
            self.yielded = true;
            cx.waker().wake_by_ref();
            std::task::Poll::Pending
        }
    }
}

struct NoWake;

impl std::task::Wake for NoWake {
    fn wake(self: Arc<Self>) {}
}

/// Poll a future in the name of a cell, which decides whether it is created,
/// polled or left alone.
fn poll_cell<const SIZE: usize>(
    cell: &mut TaskCell<SIZE>,
    slot: &mut Option<Pin<Box<dyn Future<Output = ()>>>>,
    create: &mut dyn FnMut() -> Pin<Box<dyn Future<Output = ()>>>,
    size: usize,
) -> Poll<()> {
    match cell.begin_poll(size, 8) {
        CellAction::CreateAndPoll => *slot = Some(create()),
        CellAction::Poll => {}
        CellAction::Finished => return Poll::Ready(()),
    }
    let waker = std::task::Waker::from(Arc::new(NoWake));
    let mut cx = std::task::Context::from_waker(&waker);
    let outcome = match slot.as_mut().unwrap().as_mut().poll(&mut cx) {
        std::task::Poll::Ready(()) => Poll::Ready(()),
        std::task::Poll::Pending => Poll::Pending,
    };
    let r = cell.poll(outcome);
    if cell.is_completed() {
        *slot = None;
    }
    r
}

#[test]
fn task_cell_polls_real_async_fn() {
    let count = Rc::new(RefCell::new(0u32));
    let mut cell: TaskCell<256> = TaskCell::new();
    let mut slot = None;
    let shared = count.clone();
    let mut create = move || {
        let count = shared.clone();
        let future: Pin<Box<dyn Future<Output = ()>>> = Box::pin(async move {
            loop {
                *count.borrow_mut() += 1;
                TestYield { yielded: false }.await;
            }
        });
        future
    };
    let _ = poll_cell(&mut cell, &mut slot, &mut create, 64);
    let _ = poll_cell(&mut cell, &mut slot, &mut create, 64);
    assert!(*count.borrow() >= 1);
    assert!(!cell.is_completed());
}

#[test]
fn completed_cell_is_not_polled_again() {
    let polls = Rc::new(RefCell::new(0u32));
    let mut cell: TaskCell<128> = TaskCell::new();
    let mut slot = None;
    let shared = polls.clone();
    let mut create = move || {
        let polls = shared.clone();
        let future: Pin<Box<dyn Future<Output = ()>>> = Box::pin(async move {
            *polls.borrow_mut() += 1;
        });
        future
    };
    assert_eq!(poll_cell(&mut cell, &mut slot, &mut create, 32), Poll::Ready(()));
    assert!(cell.is_completed());
    assert_eq!(poll_cell(&mut cell, &mut slot, &mut create, 32), Poll::Ready(()));
    assert_eq!(*polls.borrow(), 1);
}

/// A channel that two async functions share.
struct Shared {
    chan: Channel<u32, 4>,
    waker: WakerState,
    current: CurrentTask,
}

struct SendStep {
    shared: Rc<RefCell<Shared>>,
    tx: Rc<rivet::sync::Sender<u32, 4>>,
    fut: rivet::sync::channel::SendFut<u32>,
}

impl Future for SendStep {
    type Output = ();
    fn poll(
        mut self: Pin<&mut Self>,
        _cx: &mut std::task::Context<'_>,
    ) -> std::task::Poll<()> {
        let shared = self.shared.clone();
        let tx = self.tx.clone();
        let mut s = shared.borrow_mut();
        let s = &mut *s;
        let me = current_task(&s.current);
        match self.fut.poll(&tx, &mut s.chan, &mut s.waker, me) {
            Poll::Ready(()) => std::task::Poll::Ready(()),
            Poll::Pending => std::task::Poll::Pending,
        }
    }
}

struct RecvStep {
    shared: Rc<RefCell<Shared>>,
    rx: Rc<rivet::sync::Receiver<u32, 4>>,
    fut: rivet::sync::channel::Recv,
}

impl Future for RecvStep {
    type Output = u32;
    fn poll(
        mut self: Pin<&mut Self>,
        _cx: &mut std::task::Context<'_>,
    ) -> std::task::Poll<u32> {
        let shared = self.shared.clone();
        let rx = self.rx.clone();
        let mut s = shared.borrow_mut();
        let s = &mut *s;
        let me = current_task(&s.current);
        match self.fut.poll(&rx, &mut s.chan, &mut s.waker, me) {
            Poll::Ready(v) => std::task::Poll::Ready(v),
            Poll::Pending => std::task::Poll::Pending,
        }
    }
}

#[test]
fn end_to_end_producer_consumer_via_real_async_fn() {
    let mut chan: Channel<u32, 4> = Channel::new();
    let (tx, rx) = chan.split().expect("split once");
    let (tx, rx) = (Rc::new(tx), Rc::new(rx));
    let shared = Rc::new(RefCell::new(Shared {
        chan,
        waker: WakerState::new(),
        current: CurrentTask::new(),
    }));
    let log = Rc::new(RefCell::new(0u32));

    let (s, l) = (shared.clone(), log.clone());
    let mut producer = move || {
        let (s, l, tx) = (s.clone(), l.clone(), tx.clone());
        let future: Pin<Box<dyn Future<Output = ()>>> = Box::pin(async move {
            for i in 1..=3u32 {
                SendStep { shared: s.clone(), tx: tx.clone(), fut: tx.send(i) }.await;
            }
            *l.borrow_mut() |= 0b001;
        });
        future
    };
    let (s, l) = (shared.clone(), log.clone());
    let mut consumer = move || {
        let (s, l, rx) = (s.clone(), l.clone(), rx.clone());
        let future: Pin<Box<dyn Future<Output = ()>>> = Box::pin(async move {
            let mut sum = 0u32;
            for _ in 0..3 {
                sum += RecvStep { shared: s.clone(), rx: rx.clone(), fut: rx.recv() }.await;
            }
            assert_eq!(sum, 6);
            *l.borrow_mut() |= 0b010;
        });
        future
    };

    let mut producer_cell: TaskCell<512> = TaskCell::new();
    let mut consumer_cell: TaskCell<512> = TaskCell::new();
    let (mut producer_slot, mut consumer_slot) = (None, None);
    let mut producer_done = false;
    let mut consumer_done = false;
    for _ in 0..20 {
        if !producer_done {
            set_current_for_test(&mut shared.borrow_mut().current, 1, 0);
            let r = poll_cell(&mut producer_cell, &mut producer_slot, &mut producer, 64);
            clear_current_for_test(&mut shared.borrow_mut().current);
            producer_done = r == Poll::Ready(());
        }
        if !consumer_done {
            set_current_for_test(&mut shared.borrow_mut().current, 0, 0);
            let r = poll_cell(&mut consumer_cell, &mut consumer_slot, &mut consumer, 64);
            clear_current_for_test(&mut shared.borrow_mut().current);
            consumer_done = r == Poll::Ready(());
        }
        if producer_done && consumer_done {
            break;
        }
    }

    assert!(producer_done, "producer task did not complete");
    assert!(consumer_done, "consumer task did not complete");
    assert_eq!(*log.borrow(), 0b011);
}
