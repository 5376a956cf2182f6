//! Console, log, report, watchdogs, trace, critical sections and interrupts.
use rivet::console::{self, Console, RX_CAPACITY, TX_CAPACITY};
use rivet::critical::{enter, leave_measured, try_enter, Critical};
use rivet::deadlines;
use rivet::fault::{self, FaultPolicy};
use rivet::irq::{
    self, disable, dispatch, enable, register, set_priority, unregister, ControllerRequest,
    IrqError, IrqTable, MAX_IRQS,
};
use rivet::kernel::Kernel;
use rivet::latency::{self, Kind};
use rivet::log::{self, write_interpolated, Level, Log, LogArg};
use rivet::mmio::RegWrite;
use rivet::port::arch::Harts;
use rivet::port::board::{self, LastAct};
use rivet::port::host::{self, HostClock};
use rivet::preempt::sched::{current, set_current};
use rivet::preempt::stack_pool::StackPool;
use rivet::preempt::tcb::{get, register as register_task, Tcb, MAX_PTASKS};
use rivet::preempt::{spawn, TaskSpec};
use rivet::report::report;
use rivet::system::{self, System};
use rivet::task::{TaskId, TaskReg};
use rivet::test_support::reset_all;
use rivet::time::Duration;
use rivet::timer;
use rivet::trace::{self, crc16, encode, Stamp, SwitchReason, Trace};
use rivet::waker::{self, WakerState};
use rivet::watchdog::{self, Watchdog};

fn none() -> [Vec<u8>; 2] {
    [Vec::new(), Vec::new()]
}

fn text(bytes: Vec<u8>) -> String {
    String::from_utf8(bytes).unwrap()
}

#[test]
fn nested_enter_does_not_deadlock() {
    let c = Critical::new();
    let (r, _) = enter(c, 0, |c| enter(c, 0, |c| enter(c, 0, |c| (42, c))));
    assert_eq!(r, 42);
}

#[test]
fn lock_is_released_after_outermost_exit() {
    let (_, c) = enter(Critical::new(), 0, |c| ((), c));
    assert_eq!(c.owner, None);
    assert_eq!(c.nesting[0], 0);
}

#[test]
fn a_section_keeps_other_harts_out() {
    let mut c = Critical::new();
    let depth = try_enter(&mut c, 0).unwrap();
    assert_eq!(depth, 0);
    assert_eq!(try_enter(&mut c, 1), None);
    assert_eq!(try_enter(&mut c, 0), Some(1));
    let mut k = Kernel::new();
    leave_measured(&mut c, &mut k.latency, 0, 1, 100, 106);
    assert_eq!(c.owner, Some(0));
    leave_measured(&mut c, &mut k.latency, 0, 0, 90, 190);
    assert_eq!(c.owner, None);
    assert_eq!(latency::max_cycles(&k.latency, Kind::CriticalSection), 100);
    assert_eq!(try_enter(&mut c, 1), Some(0));
}

#[test]
fn register_and_dispatch() {
    let mut t = IrqTable::new();
    register(&mut t, 3, 0x77).unwrap();
    assert_eq!(dispatch(&t, 3), Some(0x77));
}

#[test]
fn dispatch_unregistered_is_noop() {
    let t = IrqTable::new();
    assert_eq!(dispatch(&t, 1), None);
    assert_eq!(dispatch(&t, u32::MAX), None);
}

#[test]
fn register_out_of_range() {
    let mut t = IrqTable::new();
    assert_eq!(register(&mut t, MAX_IRQS as u32, 1), Err(IrqError::OutOfRange));
}

#[test]
fn unregister_makes_dispatch_noop() {
    let mut t = IrqTable::new();
    register(&mut t, 5, 0x88).unwrap();
    unregister(&mut t, 5);
    assert_eq!(dispatch(&t, 5), None);
    register(&mut t, 6, 1).unwrap();
    irq::reset(&mut t);
    assert_eq!(dispatch(&t, 6), None);
}

#[test]
fn controller_requests_name_the_interrupt() {
    assert_eq!(enable(9), ControllerRequest::Enable { irq: 9 });
    assert_eq!(disable(9), ControllerRequest::Disable { irq: 9 });
    assert_eq!(
        set_priority(9, 0xFF),
        ControllerRequest::SetPriority { irq: 9, priority: 0xFF }
    );
}

#[test]
fn log_arg_from_conversions() {
    assert!(matches!(LogArg::from(5u32), LogArg::U32(5)));
    assert!(matches!(LogArg::from(-3i32), LogArg::I32(-3)));
    assert!(matches!(LogArg::from("hi"), LogArg::Str("hi")));
    match LogArg::F32(1.5f32.to_bits()) {
        LogArg::F32(v) => assert!((f32::from_bits(v) - 1.5).abs() < f32::EPSILON),
        _ => panic!("expected F32"),
    }
}

#[test]
fn write_interpolated_boundary_cases_do_not_panic() {
    let mut out = Vec::new();
    write_interpolated("no placeholders", &[LogArg::Absent, LogArg::Absent], &none(), &mut out);
    assert_eq!(text(out), "no placeholders");
    let mut out = Vec::new();
    write_interpolated("one {}", &[LogArg::U32(1), LogArg::Absent], &none(), &mut out);
    assert_eq!(text(out), "one 1");
    let mut out = Vec::new();
    write_interpolated("two {} and {}", &[LogArg::U32(1), LogArg::Str("x")], &none(), &mut out);
    assert_eq!(text(out), "two 1 and x");
    let mut out = Vec::new();
    write_interpolated("three {} {} {}", &[LogArg::U32(1), LogArg::U32(2)], &none(), &mut out);
    assert_eq!(text(out), "three 1 2 {}");
}

#[test]
fn interpolation_edge_cases() {
    let mut out = Vec::new();
    let floats = [b"2.5".to_vec(), Vec::new()];
    write_interpolated(
        "{{}}{ }{}é{",
        &[LogArg::F32(2.5f32.to_bits()), LogArg::I32(i32::MIN)],
        &floats,
        &mut out,
    );
    assert_eq!(text(out), "{2.5}{ }-2147483648é{");
}

#[test]
fn log_frames_are_drained_in_order() {
    let mut l = Log::new();
    let mut w = WakerState::new();
    let mut out = Vec::new();
    log::push(&mut l, &mut w, Level::Info, "early", LogArg::Absent, LogArg::Absent, None, 1);
    assert_eq!(log::dropped_frames(&l), 1);
    log::init(&mut l);
    log::init(&mut l);
    log::push(
        &mut l,
        &mut w,
        Level::Warn,
        "retry {}/{}",
        LogArg::from(2u32),
        LogArg::from(5u32),
        Some(3),
        0x1_0000_0007,
    );
    log::push(&mut l, &mut w, Level::Error, "bad", LogArg::Absent, LogArg::Absent, None, 9);
    assert_eq!(log::peek(&l).unwrap().timestamp_us, 7);
    assert!(log::drain_one(&mut l, &mut w, &none(), &mut out));
    assert!(log::drain_one(&mut l, &mut w, &none(), &mut out));
    assert!(!log::drain_one(&mut l, &mut w, &none(), &mut out));
    assert!(log::peek(&l).is_none());
    assert_eq!(text(out), "[WARN] t=7 task=3 retry 2/5\n[ERROR] t=9 bad\n");
}

#[test]
fn full_log_counts_what_it_drops() {
    let mut l = Log::new();
    let mut w = WakerState::new();
    log::init(&mut l);
    for _ in 0..20 {
        log::push(&mut l, &mut w, Level::Debug, "x", LogArg::Absent, LogArg::Absent, None, 0);
    }
    assert_eq!(log::dropped_frames(&l), 5);
    assert_eq!(Level::Trace.as_str(), "TRACE");
}

#[test]
fn console_writes_straight_away_by_default() {
    let mut c = Console::new();
    let mut w = WakerState::new();
    let mut out = Vec::new();
    assert!(!console::write_str(&mut c, &mut w, "hello", &mut out));
    console::enable_irq_tx(&mut c);
    // The rings are not in use yet.
    assert!(!console::write_str(&mut c, &mut w, "!", &mut out));
    assert_eq!(text(out), "hello!");
}

#[test]
fn console_ring_keeps_order_and_loses_nothing() {
    let mut c = Console::new();
    let mut w = WakerState::new();
    console::init(&mut c);
    console::enable_irq_tx(&mut c);
    let message: Vec<u8> = (0..600u32).map(|i| (i % 251) as u8).collect();
    let mut out = Vec::new();
    assert!(console::write_bytes(&mut c, &mut w, &message[..10], &mut out));
    assert_eq!(out, message[..1]);
    assert!(console::write_bytes(&mut c, &mut w, &message[10..], &mut out));
    assert_eq!(out.len(), 600 - (TX_CAPACITY - 1) + 1);
    assert_eq!(console::tx_irq_next_byte(&mut c, &mut w), Some(message[out.len()]));
    out.push(message[out.len()]);
    console::flush_sync(&mut c, &mut w, &mut out);
    assert_eq!(out, message);
    assert_eq!(console::tx_irq_next_byte(&mut c, &mut w), None);
}

#[test]
fn console_receives_until_full() {
    let mut c = Console::new();
    let mut w = WakerState::new();
    console::on_rx_byte(&mut c, &mut w, 1);
    assert_eq!(console::try_read_byte(&mut c, &mut w), None);
    console::init(&mut c);
    for i in 0..100u8 {
        console::on_rx_byte(&mut c, &mut w, i);
    }
    let mut got = Vec::new();
    while let Some(b) = console::try_read_byte(&mut c, &mut w) {
        got.push(b);
    }
    let expected: Vec<u8> = (0..(RX_CAPACITY - 1) as u8).collect();
    assert_eq!(got, expected);
}

#[test]
fn report_describes_the_system() {
    let mut k = Kernel::new();
    let l = Log::new();
    let s = TaskSpec {
        sp: 0x1100,
        stack_base: 0x1000,
        stack_size: 512,
        priority: 2,
        result_size: 0,
        result_drop: 0,
    };
    spawn(&mut k.preempt, &s, 128).unwrap();
    let b = register_task(&mut k.preempt, 0x2000, 1).unwrap();
    Tcb::set_effective_priority(&mut k.preempt, b, 4);
    latency::record(&mut k.latency, Kind::IrqEntry, 5);
    let mut used = [0usize; MAX_PTASKS];
    used[0] = 96;
    let mut out = Vec::new();
    report(&k, &l, &used, 0, false, &mut out);
    assert_eq!(
        text(out),
        "=== rivet::report() ===\n\
         task 0 prio=2 state=ready stack=96/512 busy=0%\n\
         task 1 prio=1(eff=4) state=ready busy=0%\n\
         ptask slots: 2/16\n\
         timer slots: 0/16\n\
         log: 0 dropped frame(s)\n\
         === end report ===\n"
    );
    let mut out = Vec::new();
    report(&k, &l, &used, 0, true, &mut out);
    assert_eq!(
        text(out),
        "=== rivet::report() ===\n\
         task 0 prio=2 state=ready stack=96/512 busy=0%\n\
         task 1 prio=1(eff=4) state=ready busy=0%\n\
         ptask slots: 2/16\n\
         timer slots: 0/16\n\
         log: 0 dropped frame(s)\n\
         latency (cycles, log2 buckets):\n  \
         irq_entry: 2^2:1 max=5\n  \
         dispatch: (no samples)\n  \
         critsec: (no samples)\n  \
         sched_wake: (no samples)\n\
         === end report ===\n"
    );
}

#[test]
fn software_watchdog_bites_when_not_fed() {
    let mut wd = Watchdog::new(false);
    let k = Kernel::new();
    let mut out = Vec::new();
    assert_eq!(watchdog::init(&mut wd, Duration::from_millis(1), 500), None);
    assert!(!watchdog::on_tick(&wd, &k.preempt, 1499, &mut out));
    assert_eq!(watchdog::feed(&mut wd, 1400), None);
    assert!(!watchdog::on_tick(&wd, &k.preempt, 2399, &mut out));
    assert!(watchdog::on_tick(&wd, &k.preempt, 2400, &mut out));
    assert_eq!(text(out), "RIVET WATCHDOG TIMEOUT\n");
}

#[test]
fn hardware_watchdog_is_programmed() {
    let mut wd = Watchdog::new(true);
    assert_eq!(watchdog::feed(&mut wd, 0), None);
    let writes = watchdog::init(&mut wd, Duration::from_micros(1000), 0);
    assert_eq!(
        writes,
        Some([
            RegWrite::word(0x400F_E060, 0x078E_3AC1),
            RegWrite::word(0x4000_0C00, 0x1ACC_E551),
            RegWrite::word(0x4000_0000, 12_000),
            RegWrite::word(0x4000_0008, 3),
            RegWrite::word(0x4000_000C, 0),
        ])
    );
    assert_eq!(watchdog::feed(&mut wd, 0), Some(RegWrite::word(0x4000_000C, 0)));
}

#[test]
fn task_checkins_are_watched() {
    let mut wd = Watchdog::new(true);
    let mut k = Kernel::new();
    let a = register_task(&mut k.preempt, 0x1000, 1).unwrap();
    set_current(&mut k.preempt, a);
    watchdog::checkin(&wd, &mut k.preempt, 50);
    assert_eq!(k.preempt.tasks[a].last_checkin, 0);
    watchdog::enable_checkins(&mut wd, Duration::from_micros(100));
    let mut out = Vec::new();
    // A task that never checked in is not watched.
    assert!(!watchdog::on_tick(&wd, &k.preempt, 10_000, &mut out));
    watchdog::checkin(&wd, &mut k.preempt, 50);
    assert!(!watchdog::on_tick(&wd, &k.preempt, 150, &mut out));
    assert!(watchdog::on_tick(&wd, &k.preempt, 151, &mut out));
    assert_eq!(text(out), "RIVET TASK CHECKIN TIMEOUT task=0\n");
}

#[test]
fn crc_of_the_check_string() {
    assert_eq!(crc16(b"123456789"), 0x29B1);
    assert_eq!(crc16(b""), 0xFFFF);
}

#[test]
fn trace_frame_layout() {
    let mut t = Trace::new();
    t.seq_no = 0xFFFF;
    let at = Stamp { hart: 1, now_us: 0x0102_0304_0506_0708 };
    let f = encode(&mut t, 0x0301, 0xA1B2_C3D4, at, &[9, 8]);
    assert_eq!(
        f[..23],
        [
            0xA5, 0x5A, 1, 0xFF, 0xFF, 0x01, 0x03, 1, 0xD4, 0xC3, 0xB2, 0xA1, 8, 7, 6, 5, 4, 3, 2,
            1, 2, 9, 8
        ]
    );
    let crc = crc16(&f[..23]);
    assert_eq!(f[23..], crc.to_le_bytes());
    assert_eq!(t.seq_no, 0);
}

#[test]
fn trace_events() {
    let mut t = Trace::new();
    let at = Stamp { hart: 0, now_us: 1 };
    let mut out = Vec::new();
    trace::reannounce_stream_header(&mut t, at, &mut out);
    assert!(out.is_empty());
    trace::stream_header(&mut t, 16_000_000, 2, at, &mut out);
    assert_eq!(out[5..7], [0x01, 0x07]);
    assert_eq!(out[21..29], [0, 1, 0, 0x00, 0x24, 0xF4, 0x00, 2]);
    out.clear();
    trace::reannounce_stream_header(&mut t, at, &mut out);
    assert_eq!(out[3], 1);
    out.clear();
    trace::task_created(&mut t, 4, 7, 512, at, &mut out);
    assert_eq!(out[5..7], [0x01, 0x00]);
    assert_eq!(out[21..26], [7, 0, 2, 0, 0]);
    out.clear();
    trace::context_switch(&mut t, 1, 2, SwitchReason::TimerWake, at, &mut out);
    assert_eq!(out[5..7], [0x09, 0x00]);
    assert_eq!(out[21..30], [1, 0, 0, 0, 2, 0, 0, 0, 6]);
    out.clear();
    trace::isr(&mut t, 38, true, at, &mut out);
    trace::isr(&mut t, 38, false, at, &mut out);
    assert_eq!(out[5..7], [0x01, 0x03]);
    assert_eq!(out[27 + 5..27 + 7], [0x02, 0x03]);
    out.clear();
    trace::mutex_lock_acquired(&mut t, 1, 5, at, &mut out);
    trace::mutex_unlock(&mut t, 1, 5, at, &mut out);
    trace::priority_inherit(&mut t, 1, 5, at, &mut out);
    assert_eq!([out[5], out[27 + 5], out[54 + 5]], [2, 4, 5]);
    out.clear();
    trace::fault(&mut t, 1, 4, 0x80, at, &mut out);
    trace::fault(&mut t, 1, 2, 0x80, at, &mut out);
    assert_eq!([out[5], out[31 + 5]], [0x05, 0x01]);
}

#[test]
fn trace_of_a_tick() {
    let mut t = Trace::new();
    let mut k = Kernel::new();
    register_task(&mut k.preempt, 0x1000, 1).unwrap();
    register_task(&mut k.preempt, 0x2000, 2).unwrap();
    let at = Stamp { hart: 0, now_us: 1 };
    let mut out = Vec::new();
    // The first tick announces both tasks; the stream was never announced.
    trace::tick(&mut t, &k.preempt, Some((0, 1)), at, &mut out);
    assert_eq!(out.len(), 32 + 28 + 28);
    out.clear();
    trace::tick(&mut t, &k.preempt, None, at, &mut out);
    assert!(out.is_empty());
    assert_eq!(t.ticks, 2);
    assert_eq!(t.seq_no, 3);
}

#[test]
fn system_comes_up_with_an_idle_task() {
    let mut s = System::new();
    let regs = [TaskReg { priority: 2, index_in_priority: 0, cell: 0 }];
    rivet::init(&mut s, &regs, 0x2f00, 0x2000, 128);
    assert_eq!(s.executor.live_tasks, 1);
    assert!(s.kernel.preempt.tasks[0].used);
    assert_eq!(s.kernel.preempt.tasks[0].stack_size, system::ASYNC_IDLE_STACK_SIZE);
    let first = rivet::run(&mut s, 5);
    assert_eq!((first.task, first.sp), (0, 0x2f00));
    let mut h = Harts::new();
    rivet::yield_now(&mut h);
    assert!(h.resched[0]);
    assert_eq!(rivet::VERSION, "0.1.0");
    let mut pool = StackPool::new(0x1000, 0x1000);
    pool.next = 0x400;
    let mut wd = Watchdog::new(false);
    let mut clock = HostClock::new();
    assert_eq!(host::now_micros(&mut clock), 0);
    assert_eq!(host::now_micros(&mut clock), 1);
    assert_eq!(host::cycle_count(&mut clock), 0);
    let mut irqs = IrqTable::new();
    irq::register(&mut irqs, 3, 7).unwrap();
    reset_all(&mut s, &mut irqs, &mut pool, &mut wd, &mut clock);
    assert_eq!(host::now_micros(&mut clock), 0);
    assert_eq!(pool.next, 0);
    assert!(!s.kernel.preempt.tasks[0].used);
    assert_eq!(s.executor.live_tasks, 0);
    assert_eq!(irq::dispatch(&irqs, 3), None);
    assert_eq!(log::dropped_frames(&s.log), 0);
}

#[test]
fn reset_leaves_nothing_behind() {
    let mut s = System::new();
    let mut irqs = IrqTable::new();
    let mut pool = StackPool::new(0x1000, 0x1000);
    let mut wd = Watchdog::new(false);
    let mut clock = HostClock::new();
    irq::register(&mut irqs, 5, 9).unwrap();
    deadlines::set_period_us(&mut s.kernel.deadlines, 2, 5000);
    fault::set_policy(&mut s.kernel.fault, FaultPolicy::IsolateTask);
    register_task(&mut s.kernel.preempt, 0x1000, 1).unwrap();
    set_current(&mut s.kernel.preempt, 0);
    timer::register_deadline(&mut s.kernel.timers, 100, TaskId::new(1, 0)).unwrap();
    waker::mark_ready(&mut s.kernel.waker, TaskId::new(2, 3));
    let w = &mut s.kernel.waker;
    log::push(&mut s.log, w, Level::Info, "lost", LogArg::Absent, LogArg::Absent, None, 1);
    assert_eq!(log::dropped_frames(&s.log), 1);

    reset_all(&mut s, &mut irqs, &mut pool, &mut wd, &mut clock);

    assert_eq!(irq::dispatch(&irqs, 5), None);
    assert_eq!(deadlines::period_us(&s.kernel.deadlines, 2), 0);
    assert_eq!(s.kernel.fault.policy, FaultPolicy::Panic);
    assert!((0..MAX_PTASKS).all(|i| get(&s.kernel.preempt, i).is_none()));
    assert_eq!(current(&s.kernel.preempt), None);
    assert_eq!(timer::slots_in_use(&s.kernel.timers), 0);
    assert_eq!(waker::next_ready(&mut s.kernel.waker), None);
    assert_eq!(log::dropped_frames(&s.log), 0);
}

#[test]
fn ending_flushes_the_console() {
    let mut c = Console::new();
    let mut w = WakerState::new();
    console::init(&mut c);
    console::enable_irq_tx(&mut c);
    let mut out = Vec::new();
    console::write_str(&mut c, &mut w, "last words", &mut out);
    assert_eq!(rivet::exit_failure(&mut c, &mut w, 7, &mut out), LastAct::Exit(7));
    assert_eq!(text(out), "last words");
    let mut out = Vec::new();
    assert_eq!(rivet::exit_success(&mut c, &mut w, &mut out), LastAct::Exit(0));
    assert_eq!(rivet::system_reset(&mut c, &mut w, &mut out), LastAct::Reset);
    assert_eq!(board::reset(&mut c, &mut w, &mut out), LastAct::Reset);
    assert!(out.is_empty());
}
