//! Architectures, boards and peripherals.
use rivet::arch::riscv::{Cause, PmpWrite, TrapAction, TrapFrame};
use rivet::arch::{cortex_m, riscv};
use rivet::bsp::stm32f401re::gpio as stm32_gpio;
use rivet::bsp::stm32f401re::gpio::{
    ahb1enr_bit, PORT_A, PORT_B, PORT_C, PORT_D, PORT_E, PORT_H,
};
use rivet::bsp::stm32f401re::i2c::{self as stm32_i2c, Stm32I2c};
use rivet::bsp::stm32f401re::wait::{self, Edges, ExtiPc13, WaitFor};
use rivet::bsp::stm32f401re::{
    self, baud_divisor, iwdg_reload, uart_irq_step, wdt_feed, wdt_init, IwdgWrite, UartStep,
};
use rivet::bsp::support::delay::RivetDelay;
use rivet::bsp::support::ns16550;
use rivet::bsp::support::pl022::{self, Pl022};
use rivet::bsp::support::serial::Serial;
use rivet::bsp::support::stellaris_i2c::{self, Outcome, StellarisI2c};
use rivet::bsp::support::sw_watchdog::{self, SwWatchdog};
use rivet::console::{self, Console};
use rivet::fault::{FaultAction, FaultKind, FaultPolicy};
use rivet::hal::gpio as lm3s_gpio;
use rivet::kernel::Kernel;
use rivet::mmio::RegWrite;
use rivet::port::arch::Harts;
use rivet::preempt::sched::{set_current, Preempt};
use rivet::preempt::stack_pool::StackPool;
use rivet::preempt::tcb::{get, register, TaskState, MAX_PTASKS};
use rivet::preempt::{self, Tick, STACK_FILL_WORD};
use rivet::sync::Signal;
use rivet::task::{Poll, TaskId};
use rivet::timer::{register_deadline, TimerQueue};
use rivet::waker::{self, WakerState};
use rivet::watchdog::Watchdog;
use std::convert::Infallible;
use std::future::Future;
use std::sync::Arc;

const FAKE_PORT: usize = 0x4002_0400;

struct NoWake;

impl std::task::Wake for NoWake {
    fn wake(self: Arc<Self>) {}
}

/// Run a future that never has to wait.
fn run<T>(future: impl Future<Output = T>) -> T {
    let waker = std::task::Waker::from(Arc::new(NoWake));
    let mut cx = std::task::Context::from_waker(&waker);
    match Box::pin(future).as_mut().poll(&mut cx) {
        std::task::Poll::Ready(v) => v,
        std::task::Poll::Pending => panic!("nothing to wait for"),
    }
}

#[test]
fn ahb1enr_bit_matches_rm0368() {
    assert_eq!(ahb1enr_bit(PORT_A), 0);
    assert_eq!(ahb1enr_bit(PORT_B), 1);
    assert_eq!(ahb1enr_bit(PORT_C), 2);
    assert_eq!(ahb1enr_bit(PORT_D), 3);
    assert_eq!(ahb1enr_bit(PORT_E), 4);
    assert_eq!(ahb1enr_bit(PORT_H), 7);
}

#[test]
fn gpio_typestate_transitions_compile() {
    let pin: stm32_gpio::Pin<FAKE_PORT, 5, stm32_gpio::Input> = stm32_gpio::Pin::new();
    let (mut pin, clock, mode) = pin.into_output(1, 0xFFFF_FFFF);
    assert_eq!(clock, RegWrite::word(0x4002_3830, 0b11));
    assert_eq!(mode, RegWrite::word(FAKE_PORT, 0xFFFF_F7FF));
    assert_eq!(pin.set_high(), RegWrite::word(FAKE_PORT + 0x18, 1 << 5));
    assert_eq!(pin.set_low(), RegWrite::word(FAKE_PORT + 0x18, 1 << 21));
    assert!(pin.is_set_high(0x20));
    assert!(pin.is_set_low(0xDF));
    assert_eq!(pin.toggle(0x20), RegWrite::word(FAKE_PORT + 0x18, 1 << 21));
    assert_eq!(pin.toggle(0), RegWrite::word(FAKE_PORT + 0x18, 1 << 5));
    let (pin, mode) = pin.into_input(0xFFFF_FFFF);
    assert_eq!(mode.value, 0xFFFF_F3FF);
    let pin: stm32_gpio::Pin<FAKE_PORT, 5, stm32_gpio::Input> = pin;
    assert!(pin.is_high(0x20));
    assert!(pin.is_low(0xDF));

    let pin: lm3s_gpio::Pin<0x4000_4000, 3, lm3s_gpio::Input> = lm3s_gpio::Pin::new();
    let (mut pin, writes) = pin.into_output(0x80, 0);
    assert_eq!(writes[0], RegWrite::word(0x4000_4400, 0x88));
    assert_eq!(writes[1], RegWrite::word(0x4000_451C, 0x08));
    assert_eq!(pin.data_reg(), 0x4000_4020);
    assert_eq!(pin.set_high(), RegWrite::word(0x4000_4020, 0xFFFF_FFFF));
    assert_eq!(pin.set_low(), RegWrite::word(0x4000_4020, 0));
    assert_eq!(pin.toggle(8), RegWrite::word(0x4000_4020, 0));
    let (_pin, write) = pin.into_input(0x88);
    assert_eq!(write, RegWrite::word(0x4000_4400, 0x80));
    let _ = core::mem::size_of::<lm3s_gpio::Pin<FAKE_PORT, 3, lm3s_gpio::Output>>();
}

/// A port whose registers are in memory, with one pin of it.
struct SimOutput {
    pin: stm32_gpio::Pin<FAKE_PORT, 5, stm32_gpio::Output>,
    odr: u32,
}

struct SimInput {
    pin: stm32_gpio::Pin<FAKE_PORT, 6, stm32_gpio::Input>,
    idr: u32,
}

impl SimOutput {
    fn apply(&mut self, write: RegWrite) {
        self.odr = (self.odr | (write.value & 0xFFFF)) & !(write.value >> 16);
    }
}

impl embedded_hal::digital::ErrorType for SimOutput {
    type Error = Infallible;
}

impl embedded_hal::digital::OutputPin for SimOutput {
    fn set_low(&mut self) -> Result<(), Infallible> {
        let write = self.pin.set_low();
        self.apply(write);
        Ok(())
    }

    fn set_high(&mut self) -> Result<(), Infallible> {
        let write = self.pin.set_high();
        self.apply(write);
        Ok(())
    }
}

impl embedded_hal::digital::ErrorType for SimInput {
    type Error = Infallible;
}

impl embedded_hal::digital::InputPin for SimInput {
    fn is_high(&mut self) -> Result<bool, Infallible> {
        Ok(self.pin.is_high(self.idr))
    }

    fn is_low(&mut self) -> Result<bool, Infallible> {
        Ok(self.pin.is_low(self.idr))
    }
}

fn blink(pin: &mut impl embedded_hal::digital::OutputPin) {
    let _ = pin.set_high();
    let _ = pin.set_low();
}

fn read(pin: &mut impl embedded_hal::digital::InputPin) -> bool {
    pin.is_high().unwrap_or(false)
}

#[test]
fn generic_embedded_hal_functions_accept_pin() {
    let (pin, _, _) = stm32_gpio::Pin::new().into_output(0, 0);
    let mut out = SimOutput { pin, odr: 0xFFFF };
    blink(&mut out);
    assert_eq!(out.odr, 0xFFDF);
    let mut inp = SimInput { pin: stm32_gpio::Pin::new(), idr: 1 << 6 };
    assert!(read(&mut inp));
}

/// A slave with bytes to give, behind the STM32 controller.
struct SimStm32 {
    irq: bool,
    log: Vec<u32>,
    give: Vec<u8>,
    fail: bool,
}

#[derive(Debug)]
struct SimError;

impl embedded_hal::i2c::Error for SimError {
    fn kind(&self) -> embedded_hal::i2c::ErrorKind {
        embedded_hal::i2c::ErrorKind::NoAcknowledge(
            embedded_hal::i2c::NoAcknowledgeSource::Unknown,
        )
    }
}

impl SimStm32 {
    fn transact(
        &mut self,
        address: u8,
        operations: &mut [embedded_hal::i2c::Operation<'_>],
    ) -> Result<(), SimError> {
        let ops: Vec<stm32_i2c::Op> = operations
            .iter()
            .map(|op| match op {
                embedded_hal::i2c::Operation::Write(b) => stm32_i2c::Op::Write(b.to_vec()),
                embedded_hal::i2c::Operation::Read(b) => stm32_i2c::Op::Read(b.len()),
            })
            .collect();
        let mut got = Vec::new();
        for step in Stm32I2c::transaction(address, &ops, self.irq) {
            match step {
                stm32_i2c::Step::Send(v) => self.log.push(v),
                stm32_i2c::Step::Receive => got.push(self.give.remove(0)),
                stm32_i2c::Step::Poll(a) | stm32_i2c::Step::Check(a) => {
                    let sr1 = if self.fail { 0x0400 } else { a.done };
                    if Stm32I2c::judge(sr1, a) == stm32_i2c::Status::Failed {
                        return Err(SimError);
                    }
                }
                _ => {}
            }
        }
        let mut got = got.into_iter();
        for op in operations.iter_mut() {
            if let embedded_hal::i2c::Operation::Read(b) = op {
                for slot in b.iter_mut() {
                    *slot = got.next().unwrap();
                }
            }
        }
        Ok(())
    }
}

impl embedded_hal::i2c::ErrorType for SimStm32 {
    type Error = SimError;
}

impl embedded_hal::i2c::I2c for SimStm32 {
    fn transaction(
        &mut self,
        address: u8,
        operations: &mut [embedded_hal::i2c::Operation<'_>],
    ) -> Result<(), SimError> {
        self.irq = false;
        self.transact(address, operations)
    }
}

impl embedded_hal_async::i2c::I2c for SimStm32 {
    async fn transaction(
        &mut self,
        address: u8,
        operations: &mut [embedded_hal::i2c::Operation<'_>],
    ) -> Result<(), SimError> {
        self.irq = true;
        self.transact(address, operations)
    }
}

fn generic_sync<I: embedded_hal::i2c::I2c>(i2c: &mut I, addr: u8, buf: &mut [u8]) {
    let _ = i2c.read(addr, buf);
}

async fn generic_async<I: embedded_hal_async::i2c::I2c>(i2c: &mut I, addr: u8, buf: &mut [u8]) {
    let _ = i2c.read(addr, buf).await;
}

#[test]
fn i2c_type_checks() {
    let mut dev = SimStm32 { irq: false, log: Vec::new(), give: vec![1, 2, 3, 4], fail: false };
    let mut buf = [0u8; 2];
    generic_sync::<SimStm32>(&mut dev, 0x50, &mut buf);
    assert_eq!(buf, [1, 2]);
    run(generic_async::<SimStm32>(&mut dev, 0x50, &mut buf));
    assert_eq!(buf, [3, 4]);
    assert_eq!(dev.log, vec![0xA1, 0xA1]);
    dev.fail = true;
    assert!(embedded_hal::i2c::I2c::write(&mut dev, 0x50, &[7]).is_err());
}

#[test]
fn stm32_i2c_plans() {
    let plan = Stm32I2c::transaction(0x50, &vec![stm32_i2c::Op::Write(vec![7, 8]), stm32_i2c::Op::Read(2)], false);
    let start = stm32_i2c::Await { done: 1, errors: 0, stop: false };
    let acked = stm32_i2c::Await { done: 2, errors: 0x0400, stop: true };
    let sent = stm32_i2c::Await { done: 0x80, errors: 0x4F00, stop: true };
    let received = stm32_i2c::Await { done: 0x40, errors: 0x4F00, stop: false };
    assert_eq!(
        plan,
        vec![
            stm32_i2c::Step::Raise(0x0500),
            stm32_i2c::Step::Poll(start),
            stm32_i2c::Step::Send(0xA0),
            stm32_i2c::Step::Poll(acked),
            stm32_i2c::Step::AckAddress,
            stm32_i2c::Step::Send(7),
            stm32_i2c::Step::Poll(sent),
            stm32_i2c::Step::Send(8),
            stm32_i2c::Step::Poll(sent),
            stm32_i2c::Step::Raise(0x0500),
            stm32_i2c::Step::Poll(start),
            stm32_i2c::Step::Send(0xA1),
            stm32_i2c::Step::Poll(acked),
            stm32_i2c::Step::AckAddress,
            stm32_i2c::Step::Poll(received),
            stm32_i2c::Step::Lower(0x0400),
            stm32_i2c::Step::Raise(0x0200),
            stm32_i2c::Step::Receive,
            stm32_i2c::Step::Poll(received),
            stm32_i2c::Step::Receive,
        ]
    );
    // A byte that is alone is refused at once.
    let plan = Stm32I2c::transaction(0x50, &vec![stm32_i2c::Op::Read(1)], false);
    assert_eq!(
        plan[5..],
        [
            stm32_i2c::Step::Lower(0x0400),
            stm32_i2c::Step::Raise(0x0200),
            stm32_i2c::Step::Poll(received),
            stm32_i2c::Step::Receive,
        ]
    );
    // The last byte of a transaction has to leave the shift register.
    let plan = Stm32I2c::transaction(1, &vec![stm32_i2c::Op::Write(vec![7])], false);
    let last = stm32_i2c::Await { done: 4, errors: 0x4F00, stop: true };
    assert_eq!(plan[5..], [stm32_i2c::Step::Send(7), stm32_i2c::Step::Poll(last), stm32_i2c::Step::Raise(0x0200)]);
    let dev = Stm32I2c::new(0x4000_5400);
    assert_eq!(
        dev.init().map(|w| (w.address - 0x4000_5400, w.value)),
        [(0, 0x8000), (0, 0), (4, 16), (0x1C, 80), (0x20, 17), (0, 1)]
    );
    assert_eq!(dev.failure(received, 1), vec![RegWrite::word(0x4000_5414, 0)]);
    assert_eq!(
        dev.failure(acked, 1),
        vec![RegWrite::word(0x4000_5414, 0), RegWrite::word(0x4000_5400, 0x201)]
    );
    assert_eq!(Stm32I2c::judge(0, acked), stm32_i2c::Status::Again);
    assert_eq!(Stm32I2c::judge(0x0402, acked), stm32_i2c::Status::Failed);
}

#[test]
fn i2c_interrupts_mask_and_signal() {
    let mut sig = Signal::new();
    let mut w = WakerState::new();
    let mut h = Harts::new();
    let write = stm32_i2c::isr_ev(0x4000_5400, &mut sig, &mut w, &mut h, 0x310);
    assert_eq!(write, RegWrite::word(0x4000_5404, 0x010));
    assert!(sig.try_take());
    let write = stm32_i2c::isr_er(0x4000_5400, &mut sig, &mut w, &mut h, 0x300);
    assert_eq!(write.value, 0);
    assert!(sig.try_take());
    let write = stellaris_i2c::isr_ack(0x4002_0000, &mut sig, &mut w, &mut h);
    assert_eq!(write, RegWrite::word(0x4002_001C, 1));
    assert!(sig.try_take());
    let write = pl022::isr_ack(0x4000_8000, &mut sig, &mut w, &mut h);
    assert_eq!(write, RegWrite::word(0x4000_8014, 0));
    assert!(sig.try_take());
}

/// A slave behind the LM3S6965 controller.
struct SimStellaris {
    log: Vec<u32>,
    give: Vec<u8>,
}

impl SimStellaris {
    fn transact(
        &mut self,
        address: u8,
        operations: &mut [embedded_hal::i2c::Operation<'_>],
    ) -> Result<(), SimError> {
        let ops: Vec<stellaris_i2c::Op> = operations
            .iter()
            .map(|op| match op {
                embedded_hal::i2c::Operation::Write(b) => stellaris_i2c::Op::Write(b.to_vec()),
                embedded_hal::i2c::Operation::Read(b) => stellaris_i2c::Op::Read(b.len()),
            })
            .collect();
        let mut got = Vec::new();
        for step in StellarisI2c::transaction(address, &ops) {
            match step {
                stellaris_i2c::Step::Address(v) | stellaris_i2c::Step::Run(v) => self.log.push(v),
                stellaris_i2c::Step::Send(b) => self.log.push(b as u32),
                stellaris_i2c::Step::Receive => got.push(self.give.remove(0)),
            }
            if StellarisI2c::result(0).is_err() {
                return Err(SimError);
            }
        }
        let mut got = got.into_iter();
        for op in operations.iter_mut() {
            if let embedded_hal::i2c::Operation::Read(b) = op {
                for slot in b.iter_mut() {
                    *slot = got.next().unwrap();
                }
            }
        }
        Ok(())
    }
}

impl embedded_hal::i2c::ErrorType for SimStellaris {
    type Error = SimError;
}

impl embedded_hal::i2c::I2c for SimStellaris {
    fn transaction(
        &mut self,
        address: u8,
        operations: &mut [embedded_hal::i2c::Operation<'_>],
    ) -> Result<(), SimError> {
        self.transact(address, operations)
    }
}

impl embedded_hal_async::i2c::I2c for SimStellaris {
    async fn transaction(
        &mut self,
        address: u8,
        operations: &mut [embedded_hal::i2c::Operation<'_>],
    ) -> Result<(), SimError> {
        self.transact(address, operations)
    }
}

#[test]
fn stellaris_i2c_type_checks() {
    let mut dev = SimStellaris { log: Vec::new(), give: vec![5, 6, 7, 8] };
    let mut buf = [0u8; 2];
    generic_sync::<SimStellaris>(&mut dev, 0x50, &mut buf);
    assert_eq!(buf, [5, 6]);
    run(generic_async::<SimStellaris>(&mut dev, 0x50, &mut buf));
    assert_eq!(buf, [7, 8]);
    assert_eq!(dev.log[..3], [0xA1, 0b1011, 0b0101]);
}

#[test]
fn stellaris_i2c_commands() {
    let plan = StellarisI2c::transaction(0x50, &vec![stellaris_i2c::Op::Write(vec![1, 2, 3]), stellaris_i2c::Op::Read(1)]);
    assert_eq!(
        plan,
        vec![
            stellaris_i2c::Step::Address(0xA0),
            stellaris_i2c::Step::Send(1),
            stellaris_i2c::Step::Run(0b0011),
            stellaris_i2c::Step::Send(2),
            stellaris_i2c::Step::Run(0b0001),
            stellaris_i2c::Step::Send(3),
            stellaris_i2c::Step::Run(0b0101),
            stellaris_i2c::Step::Address(0xA1),
            stellaris_i2c::Step::Run(0b0111),
            stellaris_i2c::Step::Receive,
        ]
    );
    assert_eq!(StellarisI2c::outcome(1), Outcome::Busy);
    assert_eq!(StellarisI2c::outcome(2), Outcome::Failed);
    assert_eq!(StellarisI2c::outcome(0x40), Outcome::Done);
    let mut sig = Signal::new();
    assert_eq!(StellarisI2c::run_begun(&mut sig, 1), None);
    assert_eq!(StellarisI2c::run_begun(&mut sig, 2), Some(Err(stellaris_i2c::Nak)));
    assert_eq!(StellarisI2c::run_begun(&mut sig, 0), Some(Ok(())));
    let dev = StellarisI2c::new(0x4002_0000);
    assert_eq!(
        dev.init().map(|w| (w.address - 0x4002_0000, w.value)),
        [(0x20, 0x10), (0x0C, 7), (0x10, 1)]
    );
}

/// The line with its registers in memory.
struct SimLine {
    line: ExtiPc13,
    sig: Signal,
    levels: Vec<bool>,
    armed: Vec<Edges>,
}

impl SimLine {
    fn wait(&mut self, what: WaitFor) {
        let mut seen = false;
        loop {
            let high = self.line.is_high((self.levels[0] as u32) << 13);
            match ExtiPc13::wait_next(what, high, seen) {
                None => return,
                Some(edges) => {
                    self.armed.push(edges);
                    let _ = self.line.arm(&mut self.sig, edges, 0, 0, 0);
                    self.levels.remove(0);
                    seen = true;
                }
            }
        }
    }
}

impl embedded_hal::digital::ErrorType for SimLine {
    type Error = Infallible;
}

impl embedded_hal_async::digital::Wait for SimLine {
    async fn wait_for_high(&mut self) -> Result<(), Infallible> {
        self.wait(WaitFor::High);
        Ok(())
    }

    async fn wait_for_low(&mut self) -> Result<(), Infallible> {
        self.wait(WaitFor::Low);
        Ok(())
    }

    async fn wait_for_rising_edge(&mut self) -> Result<(), Infallible> {
        self.wait(WaitFor::RisingEdge);
        Ok(())
    }

    async fn wait_for_falling_edge(&mut self) -> Result<(), Infallible> {
        self.wait(WaitFor::FallingEdge);
        Ok(())
    }

    async fn wait_for_any_edge(&mut self) -> Result<(), Infallible> {
        self.wait(WaitFor::AnyEdge);
        Ok(())
    }
}

async fn generic_wait<W: embedded_hal_async::digital::Wait>(w: &mut W) {
    let _ = w.wait_for_rising_edge().await;
}

#[test]
fn wait_type_checks() {
    let mut line = SimLine {
        line: ExtiPc13::new(),
        sig: Signal::new(),
        levels: vec![false, false, true, true, false],
        armed: Vec::new(),
    };
    run(generic_wait::<SimLine>(&mut line));
    assert_eq!(line.armed, vec![Edges { rising: true, falling: false }]);
    line.armed.clear();
    run(async {
        let _ = embedded_hal_async::digital::Wait::wait_for_high(&mut line).await;
        let _ = embedded_hal_async::digital::Wait::wait_for_low(&mut line).await;
    });
    let up = Edges { rising: true, falling: false };
    let down = Edges { rising: false, falling: true };
    assert_eq!(line.armed, vec![up, down, down]);
}

#[test]
fn button_interrupt_signals_its_line_only() {
    let mut sig = Signal::new();
    let mut w = WakerState::new();
    let mut h = Harts::new();
    let line = ExtiPc13::new();
    let mut waiting = sig.wait();
    let both = Edges { rising: true, falling: true };
    let writes = line.arm(&mut sig, both, 1, 2, 4);
    assert_eq!(writes.map(|w| w.value), [0x2001, 0x2002, 0x2004]);
    let me = Some(TaskId::new(3, 1));
    assert_eq!(waiting.poll(&mut sig, me), Poll::Pending);
    assert_eq!(wait::isr(&mut sig, &mut w, &mut h, 1 << 12), None);
    assert_eq!(waker::next_ready(&mut w), None);
    assert_eq!(line.trigger_software_interrupt(), RegWrite::word(0x4001_3C10, 0x2000));
    assert_eq!(
        wait::isr(&mut sig, &mut w, &mut h, 1 << 13),
        Some(RegWrite::word(0x4001_3C14, 0x2000))
    );
    assert_eq!(waker::next_ready(&mut w), me);
    assert_eq!(waiting.poll(&mut sig, me), Poll::Ready(()));
}

struct SimDelay<'a> {
    delay: RivetDelay,
    p: &'a mut Preempt,
    t: &'a mut TimerQueue,
}

impl embedded_hal_async::delay::DelayNs for SimDelay<'_> {
    async fn delay_ns(&mut self, ns: u32) {
        self.delay.delay_ns(self.p, self.t, 0, ns);
    }
}

async fn generic_delay<D: embedded_hal_async::delay::DelayNs>(d: &mut D) {
    d.delay_ms(1).await;
}

#[test]
fn delay_type_checks() {
    let mut p = Preempt::new();
    let mut t = TimerQueue::new();
    let a = register(&mut p, 0x1000, 1).unwrap();
    set_current(&mut p, a);
    let mut d = SimDelay { delay: RivetDelay, p: &mut p, t: &mut t };
    run(generic_delay::<SimDelay<'_>>(&mut d));
    assert_eq!(get(&p, a).unwrap().state(), TaskState::Blocked);
    assert_eq!(t.ptask[a], 1000);
}

#[test]
fn delays_round_up_to_milliseconds() {
    assert_eq!(RivetDelay::millis(0), 1);
    assert_eq!(RivetDelay::millis(1), 1);
    assert_eq!(RivetDelay::millis(1_000_000), 1);
    assert_eq!(RivetDelay::millis(1_000_001), 2);
    assert_eq!(RivetDelay::millis(u32::MAX), 4295);
}

/// A controller whose transmitter is wired to its receiver.
struct SimPl022;

impl SimPl022 {
    fn transfer_all(&mut self, read: &mut [u8], write: &[u8]) {
        let mut kept = read.to_vec();
        let n = read.len().max(write.len());
        let mut i = 0;
        while i < n {
            let tx = Pl022::round(kept.len(), write, i);
            Pl022::keep(&mut kept, i, &tx);
            i += tx.len();
        }
        read.copy_from_slice(&kept);
    }
}

impl embedded_hal::spi::ErrorType for SimPl022 {
    type Error = Infallible;
}

impl embedded_hal::spi::SpiBus<u8> for SimPl022 {
    fn read(&mut self, words: &mut [u8]) -> Result<(), Infallible> {
        self.transfer_all(words, &[]);
        Ok(())
    }

    fn write(&mut self, words: &[u8]) -> Result<(), Infallible> {
        self.transfer_all(&mut [], words);
        Ok(())
    }

    fn transfer(&mut self, read: &mut [u8], write: &[u8]) -> Result<(), Infallible> {
        self.transfer_all(read, write);
        Ok(())
    }

    fn transfer_in_place(&mut self, words: &mut [u8]) -> Result<(), Infallible> {
        let write = words.to_vec();
        self.transfer_all(words, &write);
        Ok(())
    }

    fn flush(&mut self) -> Result<(), Infallible> {
        Ok(())
    }
}

impl embedded_hal_async::spi::SpiBus<u8> for SimPl022 {
    async fn read(&mut self, words: &mut [u8]) -> Result<(), Infallible> {
        self.transfer_all(words, &[]);
        Ok(())
    }

    async fn write(&mut self, words: &[u8]) -> Result<(), Infallible> {
        self.transfer_all(&mut [], words);
        Ok(())
    }

    async fn transfer(&mut self, read: &mut [u8], write: &[u8]) -> Result<(), Infallible> {
        self.transfer_all(read, write);
        Ok(())
    }

    async fn transfer_in_place(&mut self, words: &mut [u8]) -> Result<(), Infallible> {
        let write = words.to_vec();
        self.transfer_all(words, &write);
        Ok(())
    }

    async fn flush(&mut self) -> Result<(), Infallible> {
        Ok(())
    }
}

fn spi_sync<S: embedded_hal::spi::SpiBus<u8>>(s: &mut S, buf: &mut [u8]) {
    let _ = s.transfer_in_place(buf);
}

async fn spi_async<S: embedded_hal_async::spi::SpiBus<u8>>(s: &mut S, buf: &mut [u8]) {
    let _ = s.transfer_in_place(buf).await;
}

#[test]
fn pl022_type_checks() {
    let mut buf: Vec<u8> = (0..20).collect();
    spi_sync::<SimPl022>(&mut SimPl022, &mut buf);
    assert_eq!(buf, (0..20).collect::<Vec<u8>>());
    run(spi_async::<SimPl022>(&mut SimPl022, &mut buf));
    assert_eq!(buf, (0..20).collect::<Vec<u8>>());
    let mut short = [9u8; 3];
    let _ = embedded_hal::spi::SpiBus::transfer(&mut SimPl022, &mut short, &[1, 2]);
    assert_eq!(short, [1, 2, 0]);
}

#[test]
fn pl022_rounds_and_registers() {
    let write: Vec<u8> = (1..=10).collect();
    assert_eq!(Pl022::round(12, &write, 0), (1..=8).collect::<Vec<u8>>());
    assert_eq!(Pl022::round(12, &write, 8), vec![9, 10, 0, 0]);
    let mut read = vec![0u8; 3];
    Pl022::keep(&mut read, 1, &[7, 8, 9]);
    assert_eq!(read, vec![0, 7, 8]);
    let dev = Pl022::new(0x4000_8000);
    assert_eq!(
        dev.init(true).map(|w| (w.address - 0x4000_8000, w.value)),
        [(4, 0), (0x10, 2), (0, 7), (4, 3)]
    );
    assert_eq!(dev.init(false)[3].value, 2);
    let mut sig = Signal::new();
    assert_eq!(dev.begin_round(&mut sig), RegWrite::word(0x4000_8014, 4));
    assert!(Pl022::can_send(2) && !Pl022::can_send(4));
    assert!(Pl022::can_receive(4) && !Pl022::can_receive(2));
    assert!(Pl022::is_busy(0x10) && !Pl022::is_busy(0x0F));
}

struct SimSerial {
    serial: Serial,
    console: Console,
    waker: WakerState,
    out: Vec<u8>,
}

impl embedded_hal_nb::serial::ErrorType for SimSerial {
    type Error = Infallible;
}

impl embedded_hal_nb::serial::Read<u8> for SimSerial {
    fn read(&mut self) -> nb::Result<u8, Infallible> {
        self.serial.read(&mut self.console, &mut self.waker).ok_or(nb::Error::WouldBlock)
    }
}

impl embedded_hal_nb::serial::Write<u8> for SimSerial {
    fn write(&mut self, word: u8) -> nb::Result<(), Infallible> {
        self.serial.write(&mut self.console, &mut self.waker, word, &mut self.out);
        Ok(())
    }

    fn flush(&mut self) -> nb::Result<(), Infallible> {
        Ok(())
    }
}

fn generic_read<R: embedded_hal_nb::serial::Read<u8>>(r: &mut R) -> nb::Result<u8, R::Error> {
    r.read()
}

fn generic_write<W: embedded_hal_nb::serial::Write<u8>>(
    w: &mut W,
    b: u8,
) -> nb::Result<(), W::Error> {
    w.write(b)
}

#[test]
fn serial_type_checks() {
    let mut s = SimSerial {
        serial: Serial,
        console: Console::new(),
        waker: WakerState::new(),
        out: Vec::new(),
    };
    console::init(&mut s.console);
    assert_eq!(generic_read::<SimSerial>(&mut s), Err(nb::Error::WouldBlock));
    console::on_rx_byte(&mut s.console, &mut s.waker, 65);
    assert_eq!(generic_read::<SimSerial>(&mut s), Ok(65));
    assert_eq!(generic_write::<SimSerial>(&mut s, 66), Ok(()));
    assert_eq!(s.out, vec![66]);
}

#[test]
fn ns16550_writes_bytes() {
    assert_eq!(
        ns16550::write_bytes(0x1000_0000, b"ab"),
        vec![RegWrite::byte(0x1000_0000, b'a'), RegWrite::byte(0x1000_0000, b'b')]
    );
}

#[test]
fn software_watchdog_of_a_board() {
    let mut wd = SwWatchdog::new();
    assert!(!sw_watchdog::expired(&wd, u64::MAX));
    sw_watchdog::feed(&mut wd, 5);
    assert_eq!(wd.deadline_us, 0);
    sw_watchdog::init(&mut wd, 100, 50);
    assert!(!sw_watchdog::expired(&wd, 149));
    assert!(sw_watchdog::expired(&wd, 150));
    sw_watchdog::feed(&mut wd, 150);
    assert!(!sw_watchdog::expired(&wd, 249));
}

#[test]
fn stm32_board_values() {
    let d = baud_divisor(stm32f401re::SYSCLK_HZ, stm32f401re::BAUD);
    assert_eq!((d.mantissa, d.fraction), (8, 11));
    assert_eq!(stm32f401re::tick_start(1000), (16_000, 1000));
    assert_eq!(iwdg_reload(1), 1);
    assert_eq!(iwdg_reload(100_000), 800);
    assert_eq!(iwdg_reload(u32::MAX), 0xFFF);
    assert!(wdt_init(0).is_empty());
    assert_eq!(
        wdt_init(100_000),
        vec![
            IwdgWrite::Key(0x5555),
            IwdgWrite::Prescaler(0),
            IwdgWrite::Reload(800),
            IwdgWrite::Key(0xAAAA),
            IwdgWrite::Key(0xCCCC),
        ]
    );
    assert_eq!(wdt_feed(0), None);
    assert_eq!(wdt_feed(1), Some(IwdgWrite::Key(0xAAAA)));
    assert_eq!(uart_irq_step(true, true, true, true), UartStep::Transmit);
    assert_eq!(uart_irq_step(true, false, true, true), UartStep::Receive);
    assert_eq!(uart_irq_step(true, false, true, false), UartStep::Done);
    assert_eq!(stm32f401re::irq::USART2, 38);
    assert_eq!((stm32f401re::irq::I2C1_EV, stm32f401re::irq::I2C1_ER), (31, 32));
    let mut c = Console::new();
    let mut w = WakerState::new();
    let mut out = Vec::new();
    stm32f401re::exit(&mut c, &mut w, 0, &mut out);
    console::init(&mut c);
    console::enable_irq_tx(&mut c);
    stm32f401re::exit(&mut c, &mut w, 12, &mut out);
    assert_eq!(
        String::from_utf8(out).unwrap(),
        "\nRIVET_EXIT_OK\n\nRIVET_FAILURE code=12\n"
    );
}

#[test]
fn cortex_m_memory_protection() {
    let pool = StackPool::new(0x2000_0000, 0x4000);
    assert_eq!(
        cortex_m::mpu_init(&pool),
        [
            RegWrite::word(0xE000_ED98, 6),
            RegWrite::word(0xE000_ED9C, 0x2000_0016),
            RegWrite::word(0xE000_EDA0, 0x1000_001B),
            RegWrite::word(0xE000_ED94, 5),
        ]
    );
    assert_eq!(
        cortex_m::on_switch_to(0x2000_0400, 0x400),
        Some([
            RegWrite::word(0xE000_ED98, 7),
            RegWrite::word(0xE000_ED9C, 0x2000_0417),
            RegWrite::word(0xE000_EDA0, 0x1300_0013),
        ])
    );
    assert_eq!(cortex_m::mpu_set_current_stack(0, 0), None);
    assert_eq!(
        cortex_m::mpu_allow_scratch(),
        [RegWrite::word(0xE000_ED98, 6), RegWrite::word(0xE000_EDA0, 0)]
    );
    assert_eq!(cortex_m::mpu_clear_scratch(&pool), cortex_m::mpu_init(&pool)[..3]);
    let all = cortex_m::early_init(&pool);
    assert_eq!(all.len(), 10);
    assert_eq!(all[5], RegWrite::word(0xE000_E014, 11_999));
    assert_eq!(all[7], RegWrite::byte(0xE000_ED22, 0xFF));
    assert_eq!(all[9], RegWrite::word(0xE000_ED24, 0x7_0000));
}

#[test]
fn cortex_m_tick_and_text() {
    let mut k = Kernel::new();
    let wd = Watchdog::new(true);
    let mut s = cortex_m::SysTick { ticks: 0 };
    let mut out = Vec::new();
    register_deadline(&mut k.timers, 2000, TaskId::new(1, 0)).unwrap();
    for expected in [None, Some(TaskId::new(1, 0))] {
        let r = cortex_m::systick_handler(
            &mut s,
            &wd,
            &mut k.timers,
            &mut k.waker,
            &mut k.preempt,
            &mut out,
        );
        assert_eq!(r, cortex_m::TickRequest::Switch(RegWrite::word(0xE000_ED04, 1 << 28)));
        assert_eq!(waker::next_ready(&mut k.waker), expected);
    }
    assert_eq!(cortex_m::now_micros(&s), 2000);
    cortex_m::systick_seed_ticks(&mut s, u32::MAX);
    let mut biting = Watchdog::new(false);
    biting.period_us = 1;
    let r = cortex_m::systick_handler(
        &mut s,
        &biting,
        &mut k.timers,
        &mut k.waker,
        &mut k.preempt,
        &mut out,
    );
    assert_eq!(r, cortex_m::TickRequest::Reset);
    assert_eq!(s.ticks, 0);
    out.clear();
    cortex_m::debug_print_hex32(0xdead_beef, &mut out);
    cortex_m::exit_failure(42, &mut out);
    assert_eq!(String::from_utf8(out).unwrap(), "deadbeef\nRIVET_FAILURE code=42\n");
    assert_eq!(cortex_m::systick_enable(), RegWrite::word(0xE000_E010, 7));
    assert_eq!(cortex_m::systick_reload(99)[0], RegWrite::word(0xE000_E014, 99));
    assert_eq!(cortex_m::yield_now(), cortex_m::pend_executor());
    assert_eq!(cortex_m::system_reset(), RegWrite::word(0xE000_ED0C, 0x05FA_0004));
}

#[test]
fn cortex_m_first_frame() {
    let f = cortex_m::init_task_stack(0x2000_0008, 1024, 0x801, 0x55, 0x901);
    assert_eq!(f.sp, (0x2000_0008 + 1024 - 64) & !15);
    let mut words = [0u32; 16];
    words[8] = 0x55;
    words[13] = 0x901;
    words[14] = 0x801;
    words[15] = 0x0100_0000;
    assert_eq!(f.words, words);
    let call = cortex_m::rivet_svc_core(&[0x2000_0008, 1024, 0x801, 0x55], 0x901, 5);
    assert_eq!(call.before, RegWrite::word(0xE000_ED94, 4));
    assert_eq!(call.after, RegWrite::word(0xE000_ED94, 5));
    assert_eq!(call.result as usize, f.sp);
    assert_eq!(call.frame.words, words);
}

#[test]
fn cortex_m_memory_fault_is_handled() {
    let mut k = Kernel::new();
    let a = register(&mut k.preempt, 0x1000, 1).unwrap();
    let b = register(&mut k.preempt, 0x2000, 0).unwrap();
    preempt::start(&mut k, 0);
    rivet::fault::set_policy(&mut k.fault, FaultPolicy::IsolateTask);
    let mut out = Vec::new();
    let used = [0usize; MAX_PTASKS];
    let action = cortex_m::rivet_memmanage_rust(
        &k.fault,
        &mut k.preempt,
        &mut k.timers,
        &mut out,
        &used,
        0x1010,
        0x82,
        0x2000_0000,
        0x400,
    );
    assert!(matches!(action, FaultAction::Resume { sp: 0x2000, .. }));
    assert_eq!(
        String::from_utf8(out).unwrap(),
        "\nRIVET FAULT: memmanage addr=0x20000000 pc=0x00000400 task=0\n"
    );
    assert_eq!(rivet::preempt::sched::current(&k.preempt), Some(b));
    let _ = a;
}

#[test]
fn riscv_clock_and_tick() {
    assert_eq!(riscv::clint_read_mtime(1, 2, 1), Some(0x1_0000_0002));
    assert_eq!(riscv::clint_read_mtime(1, 2, 3), None);
    assert_eq!(riscv::now_micros(12_345), 1234);
    assert_eq!(
        riscv::clint_write_compare(0x1_0000_0002),
        [
            RegWrite::word(0x0200_4000, 0xFFFF_FFFF),
            RegWrite::word(0x0200_4004, 1),
            RegWrite::word(0x0200_4000, 2),
        ]
    );
    let mut k = Kernel::new();
    let wd = Watchdog::new(true);
    let mut s = riscv::TickTimer { prev: 0 };
    let mut out = Vec::new();
    riscv::early_init(&mut s, 5_000);
    assert_eq!(s.prev, 15_000);
    let w = riscv::timer_tick(&mut s, &mut k, &wd, 15_100, 15_200, &mut out).unwrap();
    // Served late, but the next tick is due a period after this one was.
    assert_eq!(s.prev, 25_000);
    assert_eq!(w[2].value, 25_000);
    riscv::timer_tick(&mut s, &mut k, &wd, 34_000, 34_999, &mut out).unwrap();
    assert_eq!(s.prev, 35_000);
    // Ticks that were missed altogether are made up for by one.
    riscv::timer_tick(&mut s, &mut k, &wd, 45_000, 45_000, &mut out).unwrap();
    assert_eq!(s.prev, 55_000);
    riscv::timer_tick(&mut s, &mut k, &wd, 90_000, 90_010, &mut out).unwrap();
    assert_eq!(s.prev, 100_010);
}

#[test]
fn riscv_machine_words() {
    assert_eq!(riscv::pend_executor(), RegWrite::word(0x0200_0000, 1));
    assert_eq!(riscv::yield_now(), RegWrite::word(0x0200_0000, 1));
    assert_eq!(riscv::exit_success(), RegWrite::word(0x10_0000, 0x5555));
    assert_eq!(riscv::exit_failure(3), RegWrite::word(0x10_0000, 0x3_3333));
    assert_eq!(riscv::system_reset(), RegWrite::word(0x10_0000, 0x7777));
    let long = "x".repeat(200);
    let buf = riscv::semihosting_print(&long);
    assert_eq!(buf[..127], [b'x'; 127]);
    assert_eq!(buf[127], 0);
    let buf = riscv::semihosting_print("ok");
    assert_eq!(buf[..3], [b'o', b'k', 0]);
}

#[test]
fn riscv_guard_bands() {
    let cfg = [0x1111_1111u32, 0x2222_2222, 0, 0x4444_4444];
    // The address comes before the configuration that locks it.
    assert_eq!(
        riscv::pmp_register_guard(0x8000_0100, 5, &cfg),
        Some([
            PmpWrite::Address { index: 5, value: 0x2000_0047 },
            PmpWrite::Config { index: 1, value: 0x2222_9822 },
        ])
    );
    assert_eq!(riscv::pmp_register_guard(0x8000_0100, 15, &cfg), None);
    assert_eq!(
        riscv::pmp_init_catch_all(&cfg),
        [
            PmpWrite::Address { index: 15, value: 0xFFFF_FFFF },
            PmpWrite::Config { index: 3, value: 0x8F44_4444 },
        ]
    );
}

#[test]
fn riscv_first_frame() {
    let f = riscv::init_task_stack(0x8000_0000, 1024, 0x100, 0x200, 0x300);
    assert_eq!(f.sp, 0x8000_0000 + 1024 - 128);
    let mut words = [0u32; 32];
    words[4] = 0x200;
    words[5] = 0x100;
    words[28] = 0x300;
    assert_eq!(f.words, words);
}

#[test]
fn riscv_traps() {
    assert_eq!(riscv::decode(true, 7), Cause::Timer);
    assert_eq!(riscv::decode(true, 3), Cause::Software);
    assert_eq!(riscv::decode(true, 11), Cause::OtherInterrupt);
    assert_eq!(riscv::decode(false, 1), Cause::Access(FaultKind::InstructionAccess));
    assert_eq!(riscv::decode(false, 5), Cause::Access(FaultKind::LoadAccess));
    assert_eq!(riscv::decode(false, 7), Cause::Access(FaultKind::StoreAccess));
    assert_eq!(riscv::decode(false, 2), Cause::Unhandled);

    let mut k = Kernel::new();
    let wd = Watchdog::new(true);
    let mut s = riscv::TickTimer { prev: 0 };
    let mut out = Vec::new();
    let used = [0usize; MAX_PTASKS];
    register(&mut k.preempt, 0x1000, 1).unwrap();
    preempt::start(&mut k, 0);
    register(&mut k.preempt, 0x2000, 2).unwrap();
    let tick = Tick { sp: 0x1010, lowest: STACK_FILL_WORD, used_us: 0, cycle: 9 };
    let trap = |interrupt, code| TrapFrame {
        interrupt,
        code,
        mepc: 0x44,
        mtval: 0x55,
        mtime: 100,
        later: 200,
    };
    let r = riscv::rivet_trap_handler_rust(
        &mut s,
        &mut k,
        &wd,
        &trap(true, 11),
        &tick,
        &used,
        &mut out,
    );
    assert!(matches!(r, TrapAction::Resume(0x1010)));
    let r = riscv::rivet_trap_handler_rust(
        &mut s,
        &mut k,
        &wd,
        &trap(false, 2),
        &tick,
        &used,
        &mut out,
    );
    assert!(matches!(r, TrapAction::Panic));
    let r = riscv::rivet_trap_handler_rust(
        &mut s,
        &mut k,
        &wd,
        &trap(true, 7),
        &tick,
        &used,
        &mut out,
    );
    match r {
        TrapAction::Tick { writes, action } => {
            assert_eq!(writes[2].value, 10_000);
            assert!(matches!(action, preempt::TickAction::Switch { .. }));
        }
        _ => panic!("a tick schedules"),
    }
    let r = riscv::rivet_trap_handler_rust(
        &mut s,
        &mut k,
        &wd,
        &trap(true, 3),
        &tick,
        &used,
        &mut out,
    );
    match r {
        TrapAction::Schedule { write, .. } => {
            assert_eq!(write, RegWrite::word(0x0200_0000, 0));
        }
        _ => panic!("a software interrupt schedules"),
    }
    let r = riscv::rivet_trap_handler_rust(
        &mut s,
        &mut k,
        &wd,
        &trap(false, 5),
        &tick,
        &used,
        &mut out,
    );
    assert!(matches!(r, TrapAction::Fault(FaultAction::Reset)));
    assert!(String::from_utf8(out).unwrap().contains("load-access addr=0x00000055 pc=0x00000044"));
}
