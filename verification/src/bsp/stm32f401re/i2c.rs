//! The I2C master of the STM32F401.
//!
//! A transaction is planned as a sequence of steps on the controller's
//! registers. The rules that the controller demands are in the plan: the
//! address phase is acknowledged by reading both status registers; the last
//! byte that is received is refused, and the bus stopped, before the byte
//! before it is taken; and the last byte that is sent is waited for until it
//! has left the shift register.
use crate::mmio::RegWrite;
use crate::port::arch::Harts;
use crate::sync::signal::{signalled, Signal};
use crate::waker::WakerState;
use vstd::prelude::*;

verus! {

/// First control register.
pub const CR1: usize = 0x00;

/// Second control register.
pub const CR2: usize = 0x04;

/// Data register.
pub const DR: usize = 0x10;

/// First status register.
pub const SR1: usize = 0x14;

/// Second status register.
pub const SR2: usize = 0x18;

/// Clock control register.
pub const CCR: usize = 0x1C;

/// Rise time register.
pub const TRISE: usize = 0x20;

/// The controller is on.
pub const CR1_PE: u32 = 0x0001;

/// Make a start.
pub const CR1_START: u32 = 0x0100;

/// Make a stop.
pub const CR1_STOP: u32 = 0x0200;

/// Acknowledge what is received.
pub const CR1_ACK: u32 = 0x0400;

/// Reset the controller.
pub const CR1_SWRST: u32 = 0x8000;

/// Both interrupts, for events and for errors.
pub const CR2_IRQS: u32 = 0x0300;

/// The start was made.
pub const SR1_SB: u32 = 0x0001;

/// The address was acknowledged.
pub const SR1_ADDR: u32 = 0x0002;

/// A byte has left the shift register.
pub const SR1_BTF: u32 = 0x0004;

/// A byte was received.
pub const SR1_RXNE: u32 = 0x0040;

/// The next byte can be sent.
pub const SR1_TXE: u32 = 0x0080;

/// Something was not acknowledged.
pub const SR1_AF: u32 = 0x0400;

/// Any error.
pub const SR1_ERROR_MASK: u32 = 0x4F00;

/// Clock of the controller, in megahertz.
pub const APB1_MHZ: u32 = 16;

/// A transaction failed.
#[derive(Debug, Clone, Copy, PartialEq, Eq, Structural)]
pub struct I2cError;

/// One controller.
pub struct Stm32I2c {
    /// Address of its registers.
    pub base: usize,
}

/// One operation of a transaction.
pub enum Op {
    /// Send bytes.
    Write(Vec<u8>),
    /// Receive this many bytes.
    Read(usize),
}

/// What to look for in the first status register.
#[derive(Debug, Clone, Copy, PartialEq, Eq, Structural)]
pub struct Await {
    /// The bit that ends the wait.
    pub done: u32,
    /// The bits that end the transaction.
    pub errors: u32,
    /// Whether an error is followed by a stop.
    pub stop: bool,
}

/// One step of a transaction.
#[derive(Debug, Clone, Copy, PartialEq, Eq, Structural)]
pub enum Step {
    /// Set bits of the first control register.
    Raise(u32),
    /// Clear bits of the first control register.
    Lower(u32),
    /// Write the data register.
    Send(u32),
    /// Look at the status until it says done, or an error.
    Poll(Await),
    /// Forget an old signal.
    ResetSignal,
    /// Let both interrupts through.
    EnableIrqs,
    /// Wait for the signal.
    AwaitSignal,
    /// Look at the status once, for an error.
    Check(Await),
    /// Read the first and then the second status register, which acknowledges
    /// the address phase.
    AckAddress,
    /// Take the received byte out of the data register.
    Receive,
}

/// The byte that selects a slave and a direction.
pub open spec fn address_word(address: u8, read: bool) -> u32 {
    (2 * address + if read {
        1int
    } else {
        0
    }) as u32
}

/// What ends the wait for the start.
pub open spec fn await_start() -> Await {
    Await { done: SR1_SB, errors: 0, stop: false }
}

/// What ends the wait for the address to be acknowledged.
pub open spec fn await_address() -> Await {
    Await { done: SR1_ADDR, errors: SR1_AF, stop: true }
}

/// What ends the wait for a sent byte; the last one of a transaction must have
/// left the shift register.
pub open spec fn await_sent(last: bool) -> Await {
    Await {
        done: if last {
            SR1_BTF
        } else {
            SR1_TXE
        },
        errors: SR1_ERROR_MASK,
        stop: true,
    }
}

/// What ends the wait for a received byte. The stop was made before.
pub open spec fn await_received() -> Await {
    Await { done: SR1_RXNE, errors: SR1_ERROR_MASK, stop: false }
}

/// `said`, followed by the start and the address phase.
pub open spec fn address_steps(said: Seq<Step>, address: u8, read: bool, irq: bool) -> Seq<Step> {
    if irq {
        said + seq![
            Step::ResetSignal,
            Step::EnableIrqs,
            Step::Raise(0x0500),
            Step::AwaitSignal,
            Step::ResetSignal,
            Step::EnableIrqs,
            Step::Send(address_word(address, read)),
            Step::AwaitSignal,
            Step::Check(await_address()),
            Step::AckAddress,
        ]
    } else {
        said + seq![
            Step::Raise(0x0500),
            Step::Poll(await_start()),
            Step::Send(address_word(address, read)),
            Step::Poll(await_address()),
            Step::AckAddress,
        ]
    }
}

/// `said`, followed by the steps that send the first `k` bytes.
pub open spec fn send_steps(said: Seq<Step>, bytes: Seq<u8>, last_op: bool, k: nat) -> Seq<Step>
    decreases k,
{
    if k == 0 {
        said
    } else {
        send_steps(said, bytes, last_op, (k - 1) as nat).push(Step::Send(bytes[k - 1] as u32)).push(
            Step::Poll(await_sent(last_op && k == bytes.len())),
        )
    }
}

/// `said`, followed by the refusal of the byte that comes next, and the stop.
pub open spec fn refusal(said: Seq<Step>) -> Seq<Step> {
    said.push(Step::Lower(CR1_ACK)).push(Step::Raise(CR1_STOP))
}

/// `said`, followed by the steps that receive the first `k` of `n` bytes. The
/// last byte is refused while the byte before it is still in the data register;
/// one that is alone is refused at once.
pub open spec fn receive_steps(said: Seq<Step>, n: nat, k: nat) -> Seq<Step>
    decreases k,
{
    if k == 0 {
        said
    } else {
        let before = receive_steps(said, n, (k - 1) as nat);
        let alone = if n == 1 {
            refusal(before)
        } else {
            before
        };
        let come = alone.push(Step::Poll(await_received()));
        let ready = if k == n - 1 {
            refusal(come)
        } else {
            come
        };
        ready.push(Step::Receive)
    }
}

/// `said`, followed by the steps of one operation.
pub open spec fn op_steps(
    said: Seq<Step>,
    address: u8,
    op: Op,
    last_op: bool,
    irq: bool,
) -> Seq<Step> {
    match op {
        Op::Write(bytes) => {
            let sent = send_steps(
                address_steps(said, address, false, irq),
                bytes@,
                last_op,
                bytes@.len(),
            );
            if last_op {
                sent.push(Step::Raise(CR1_STOP))
            } else {
                sent
            }
        },
        Op::Read(n) => receive_steps(
            address_steps(said, address, true, irq),
            n as nat,
            n as nat,
        ),
    }
}

/// The steps of the first `k` operations of a transaction.
pub open spec fn steps(address: u8, ops: Seq<Op>, irq: bool, k: nat) -> Seq<Step>
    decreases k,
{
    if k == 0 {
        Seq::empty()
    } else {
        op_steps(
            steps(address, ops, irq, (k - 1) as nat),
            address,
            ops[k - 1],
            k == ops.len(),
            irq,
        )
    }
}

/// How a wait stands.
#[derive(Debug, Clone, Copy, PartialEq, Eq, Structural)]
pub enum Status {
    /// Look again.
    Again,
    /// Go on.
    Done,
    /// The transaction failed.
    Failed,
}

/// How a wait stands, by the status word. An error counts more than the end of
/// the wait.
pub open spec fn judged(sr1: u32, a: Await) -> Status {
    if sr1 & a.errors != 0 {
        Status::Failed
    } else if sr1 & a.done != 0 {
        Status::Done
    } else {
        Status::Again
    }
}

impl Stm32I2c {
    /// The controller with its registers at `base`, of which the caller is the
    /// only user.
    pub fn new(base: usize) -> (r: Self)
        ensures
            r.base == base,
    {
        Stm32I2c { base }
    }

    /// Its registers can be addressed.
    pub open spec fn wf(&self) -> bool {
        self.base + 0x400 <= usize::MAX
    }

    /// Turn the controller on, at a hundred kilohertz. The pins are the
    /// board's affair.
    pub fn init(&self) -> (r: [RegWrite; 6])
        requires
            self.wf(),
        ensures
            r@ == seq![
                RegWrite::of_word((self.base + CR1) as usize, CR1_SWRST),
                RegWrite::of_word((self.base + CR1) as usize, 0),
                RegWrite::of_word((self.base + CR2) as usize, 16),
                RegWrite::of_word((self.base + CCR) as usize, 80),
                RegWrite::of_word((self.base + TRISE) as usize, 17),
                RegWrite::of_word((self.base + CR1) as usize, CR1_PE),
            ],
    {
        let edges_per_second: u32 = 200_000;
        let ccr: u32 = APB1_MHZ * 1_000_000 / edges_per_second;
        assert(ccr == 80);
        let writes = [
            RegWrite::word(self.base + CR1, CR1_SWRST),
            RegWrite::word(self.base + CR1, 0),
            RegWrite::word(self.base + CR2, APB1_MHZ),
            RegWrite::word(self.base + CCR, ccr),
            RegWrite::word(self.base + TRISE, APB1_MHZ + 1),
            RegWrite::word(self.base + CR1, CR1_PE),
        ];
        assert(writes@ =~= seq![
            RegWrite::of_word((self.base + CR1) as usize, CR1_SWRST),
            RegWrite::of_word((self.base + CR1) as usize, 0),
            RegWrite::of_word((self.base + CR2) as usize, 16),
            RegWrite::of_word((self.base + CCR) as usize, 80),
            RegWrite::of_word((self.base + TRISE) as usize, 17),
            RegWrite::of_word((self.base + CR1) as usize, CR1_PE),
        ]);
        writes
    }

    /// How a wait stands, by the status word.
    pub fn judge(sr1: u32, a: Await) -> (r: Status)
        ensures
            r == judged(sr1, a),
    {
        if sr1 & a.errors != 0 {
            Status::Failed
        } else if sr1 & a.done != 0 {
            Status::Done
        } else {
            Status::Again
        }
    }

    /// What is written when a transaction fails: the errors are cleared, and
    /// the bus is stopped if it still has to be. `cr1` is the word of the first
    /// control register.
    pub fn failure(&self, a: Await, cr1: u32) -> (r: Vec<RegWrite>)
        requires
            self.wf(),
        ensures
            r@ == (if a.stop {
                seq![
                    RegWrite::of_word((self.base + SR1) as usize, 0),
                    RegWrite::of_word((self.base + CR1) as usize, cr1 | CR1_STOP),
                ]
            } else {
                seq![RegWrite::of_word((self.base + SR1) as usize, 0)]
            }),
    {
        let mut writes: Vec<RegWrite> = Vec::new();
        writes.push(RegWrite::word(self.base + SR1, 0));
        if a.stop {
            writes.push(RegWrite::word(self.base + CR1, cr1 | CR1_STOP));
        }
        writes
    }

    /// Plan the bytes that an operation sends.
    fn write_bytes(plan: &mut Vec<Step>, bytes: &Vec<u8>, last_op: bool)
        ensures
            final(plan)@ == (if last_op {
                send_steps(old(plan)@, bytes@, last_op, bytes@.len()).push(Step::Raise(CR1_STOP))
            } else {
                send_steps(old(plan)@, bytes@, last_op, bytes@.len())
            }),
    {
        let n: usize = bytes.len();
        let mut j: usize = 0;
        while j < n
            invariant
                j <= n,
                n == bytes@.len(),
                plan@ == send_steps(old(plan)@, bytes@, last_op, j as nat),
            decreases n - j,
        {
            plan.push(Step::Send(bytes[j] as u32));
            let done: u32 = if last_op && j + 1 == n {
                SR1_BTF
            } else {
                SR1_TXE
            };
            plan.push(Step::Poll(Await { done, errors: SR1_ERROR_MASK, stop: true }));
            j = j + 1;
        }
        if last_op {
            plan.push(Step::Raise(CR1_STOP));
        }
    }

    /// Plan the refusal of the byte that comes next, and the stop.
    fn refuse(plan: &mut Vec<Step>)
        ensures
            final(plan)@ == refusal(old(plan)@),
    {
        plan.push(Step::Lower(CR1_ACK));
        plan.push(Step::Raise(CR1_STOP));
    }

    /// Plan the bytes that an operation receives.
    fn read_bytes(plan: &mut Vec<Step>, n: usize)
        ensures
            final(plan)@ == receive_steps(old(plan)@, n as nat, n as nat),
    {
        let mut j: usize = 0;
        while j < n
            invariant
                j <= n,
                plan@ == receive_steps(old(plan)@, n as nat, j as nat),
            decreases n - j,
        {
            if n == 1 {
                Self::refuse(plan);
            }
            plan.push(
                Step::Poll(Await { done: SR1_RXNE, errors: SR1_ERROR_MASK, stop: false }),
            );
            if n - j == 2 {
                Self::refuse(plan);
            }
            plan.push(Step::Receive);
            j = j + 1;
        }
    }

    /// Plan the start and the address phase.
    fn begin(plan: &mut Vec<Step>, address: u8, read: bool, irq: bool)
        ensures
            final(plan)@ == address_steps(old(plan)@, address, read, irq),
    {
        let word: u32 = 2 * (address as u32) + (if read {
            1u32
        } else {
            0u32
        });
        let acked = Await { done: SR1_ADDR, errors: SR1_AF, stop: true };
        if irq {
            plan.push(Step::ResetSignal);
            plan.push(Step::EnableIrqs);
            plan.push(Step::Raise(CR1_START + CR1_ACK));
            plan.push(Step::AwaitSignal);
            plan.push(Step::ResetSignal);
            plan.push(Step::EnableIrqs);
            plan.push(Step::Send(word));
            plan.push(Step::AwaitSignal);
            plan.push(Step::Check(acked));
        } else {
            plan.push(Step::Raise(CR1_START + CR1_ACK));
            plan.push(Step::Poll(Await { done: SR1_SB, errors: 0, stop: false }));
            plan.push(Step::Send(word));
            plan.push(Step::Poll(acked));
        }
        plan.push(Step::AckAddress);
        assert(plan@ =~= address_steps(old(plan)@, address, read, irq));
    }

    /// Plan a transaction with the slave at `address`; `irq` if the start and
    /// the address phase are waited for by interrupt.
    pub fn transaction(address: u8, ops: &Vec<Op>, irq: bool) -> (r: Vec<Step>)
        ensures
            r@ == steps(address, ops@, irq, ops@.len()),
    {
        let mut plan: Vec<Step> = Vec::new();
        let n: usize = ops.len();
        let mut i: usize = 0;
        assert(plan@ =~= Seq::<Step>::empty());
        while i < n
            invariant
                i <= n,
                n == ops@.len(),
                plan@ == steps(address, ops@, irq, i as nat),
            decreases n - i,
        {
            let last_op = i + 1 == n;
            match &ops[i] {
                Op::Write(bytes) => {
                    Self::begin(&mut plan, address, false, irq);
                    Self::write_bytes(&mut plan, bytes, last_op);
                },
                Op::Read(count) => {
                    Self::begin(&mut plan, address, true, irq);
                    Self::read_bytes(&mut plan, *count);
                },
            }
            i = i + 1;
        }
        plan
    }
}

/// An event came: both interrupts are held back, since the status that raised
/// them stays until the waiting task has dealt with it, and the task is woken.
/// `cr2` is the word of the second control register.
pub fn isr_ev(base: usize, sig: &mut Signal, w: &mut WakerState, h: &mut Harts, cr2: u32) -> (r:
    RegWrite)
    requires
        base + CR2 <= usize::MAX,
        old(sig).wf(),
    ensures
        r == RegWrite::of_word((base + CR2) as usize, cr2 & !CR2_IRQS),
        final(sig).wf(),
        signalled(old(sig), final(sig), old(w), final(w), old(h), final(h)),
{
    sig.signal(w, h);
    RegWrite::word(base + CR2, cr2 & !CR2_IRQS)
}

/// An error came. The error bits stay for the waiting task to see.
pub fn isr_er(base: usize, sig: &mut Signal, w: &mut WakerState, h: &mut Harts, cr2: u32) -> (r:
    RegWrite)
    requires
        base + CR2 <= usize::MAX,
        old(sig).wf(),
    ensures
        r == RegWrite::of_word((base + CR2) as usize, cr2 & !CR2_IRQS),
        final(sig).wf(),
        signalled(old(sig), final(sig), old(w), final(w), old(h), final(h)),
{
    sig.signal(w, h);
    RegWrite::word(base + CR2, cr2 & !CR2_IRQS)
}

/// The last byte that an operation receives is refused, and the bus stopped,
/// once the byte before it has come and before that one is taken; a byte that is
/// alone is refused before it is waited for. No other byte is refused.
pub proof fn law_last_byte_refused(said: Seq<Step>, n: nat)
    ensures
        receive_steps(said, 1, 1) == refusal(said) + seq![
            Step::Poll(await_received()),
            Step::Receive,
        ],
        n >= 2 ==> receive_steps(said, n, n) == refusal(
            receive_steps(said, n, (n - 2) as nat).push(Step::Poll(await_received())),
        ) + seq![Step::Receive, Step::Poll(await_received()), Step::Receive],
        n >= 2 ==> forall|k: nat|
            0 < k < n - 1 ==> #[trigger] receive_steps(said, n, k) == receive_steps(
                said,
                n,
                (k - 1) as nat,
            ) + seq![Step::Poll(await_received()), Step::Receive],
{
    reveal_with_fuel(receive_steps, 3);
    assert(receive_steps(said, 1, 1) =~= refusal(said) + seq![
        Step::Poll(await_received()),
        Step::Receive,
    ]);
    if n >= 2 {
        assert(receive_steps(said, n, n) =~= refusal(
            receive_steps(said, n, (n - 2) as nat).push(Step::Poll(await_received())),
        ) + seq![Step::Receive, Step::Poll(await_received()), Step::Receive]);
        assert forall|k: nat| 0 < k < n - 1 implies #[trigger] receive_steps(said, n, k)
            == receive_steps(said, n, (k - 1) as nat) + seq![
            Step::Poll(await_received()),
            Step::Receive,
        ] by {
            assert(receive_steps(said, n, k) =~= receive_steps(said, n, (k - 1) as nat) + seq![
                Step::Poll(await_received()),
                Step::Receive,
            ]);
        }
    }
}

/// Steps that a plan begins with, without an interrupt: the start with the
/// acknowledgement of what will be received, the wait for it, the slave's
/// address with the direction in its lowest bit, and the wait for that.
pub open spec fn begins_polled(r: Seq<Step>, address: u8, read: bool) -> bool {
    &&& r[0] == Step::Raise(0x0500)
    &&& r[1] == Step::Poll(Await { done: 1, errors: 0, stop: false })
    &&& r[2] == Step::Send((2 * address + if read {
        1int
    } else {
        0int
    }) as u32)
    &&& r[3] == Step::Poll(Await { done: 2, errors: 0x0400, stop: true })
    &&& r[4] == Step::AckAddress
}

proof fn lemma_sent(said: Seq<Step>, bytes: Seq<u8>, last_op: bool, k: nat, j: int)
    requires
        0 <= j < k,
        k <= bytes.len(),
    ensures
        send_steps(said, bytes, last_op, k).len() == said.len() + 2 * k,
        send_steps(said, bytes, last_op, k).take(said.len() as int) == said,
        send_steps(said, bytes, last_op, k)[said.len() as int + 2 * j] == Step::Send(
            bytes[j] as u32,
        ),
        send_steps(said, bytes, last_op, k)[said.len() as int + 2 * j + 1] == Step::Poll(
            await_sent(last_op && j + 1 == bytes.len()),
        ),
    decreases k,
{
    let before = send_steps(said, bytes, last_op, (k - 1) as nat);
    let after = send_steps(said, bytes, last_op, k);
    if k == 1 {
        assert(before == said);
        assert(after.take(said.len() as int) =~= said);
    } else {
        let i = if j < k - 1 {
            j
        } else {
            0
        };
        lemma_sent(said, bytes, last_op, (k - 1) as nat, i);
        assert(after.take(said.len() as int) =~= before.take(said.len() as int));
        if j < k - 1 {
            assert(after[said.len() as int + 2 * j] == before[said.len() as int + 2 * j]);
            assert(after[said.len() as int + 2 * j + 1] == before[said.len() as int + 2 * j + 1]);
        }
    }
}

proof fn lemma_front_received(said: Seq<Step>, n: nat, k: nat)
    requires
        k + 2 <= n,
    ensures
        receive_steps(said, n, k).len() == said.len() + 2 * k,
        receive_steps(said, n, k).take(said.len() as int) == said,
    decreases k,
{
    if k > 0 {
        lemma_front_received(said, n, (k - 1) as nat);
        let before = receive_steps(said, n, (k - 1) as nat);
        let after = receive_steps(said, n, k);
        assert(after =~= before.push(Step::Poll(await_received())).push(Step::Receive));
        assert(after.take(said.len() as int) =~= before.take(said.len() as int));
    } else {
        assert(said.take(said.len() as int) =~= said);
    }
}

proof fn lemma_received_at(said: Seq<Step>, n: nat, k: nat, j: int)
    requires
        0 <= j < k,
        k + 2 <= n,
    ensures
        receive_steps(said, n, k)[said.len() as int + 2 * j] == Step::Poll(await_received()),
        receive_steps(said, n, k)[said.len() as int + 2 * j + 1] == Step::Receive,
    decreases k,
{
    let before = receive_steps(said, n, (k - 1) as nat);
    let after = receive_steps(said, n, k);
    lemma_front_received(said, n, (k - 1) as nat);
    assert(after =~= before.push(Step::Poll(await_received())).push(Step::Receive));
    if j < k - 1 {
        lemma_received_at(said, n, (k - 1) as nat, j);
        assert(after[said.len() as int + 2 * j] == before[said.len() as int + 2 * j]);
        assert(after[said.len() as int + 2 * j + 1] == before[said.len() as int + 2 * j + 1]);
    }
}

proof fn lemma_read_plan(said: Seq<Step>, n: nat, j: int)
    requires
        n >= 2,
    ensures
        ({
            let r = receive_steps(said, n, n);
            let m = said.len() as int + 2 * (n - 2);
            &&& r.len() == said.len() + 2 + 2 * n
            &&& r.take(said.len() as int) == said
            &&& 0 <= j < n - 2 ==> r[said.len() as int + 2 * j] == Step::Poll(await_received())
                && r[said.len() as int + 2 * j + 1] == Step::Receive
            &&& r[m] == Step::Poll(await_received())
            &&& r[m + 1] == Step::Lower(CR1_ACK)
            &&& r[m + 2] == Step::Raise(CR1_STOP)
            &&& r[m + 3] == Step::Receive
            &&& r[m + 4] == Step::Poll(await_received())
            &&& r[m + 5] == Step::Receive
        }),
{
    let k = (n - 2) as nat;
    let front = receive_steps(said, n, k);
    let r = receive_steps(said, n, n);
    lemma_front_received(said, n, k);
    law_last_byte_refused(said, n);
    let tail = seq![
        Step::Poll(await_received()),
        Step::Lower(CR1_ACK),
        Step::Raise(CR1_STOP),
        Step::Receive,
        Step::Poll(await_received()),
        Step::Receive,
    ];
    assert(r =~= front + tail);
    assert(r.take(said.len() as int) =~= front.take(said.len() as int));
    if 0 <= j < n - 2 {
        lemma_received_at(said, n, k, j);
        assert(r[said.len() as int + 2 * j] == front[said.len() as int + 2 * j]);
        assert(r[said.len() as int + 2 * j + 1] == front[said.len() as int + 2 * j + 1]);
    }
    let m = said.len() as int + 2 * (n - 2);
    assert(r[m] == tail[0] && r[m + 1] == tail[1] && r[m + 2] == tail[2] && r[m + 3] == tail[3]
        && r[m + 4] == tail[4] && r[m + 5] == tail[5]);
}

/// A write that is the whole transaction sends each byte in order and waits for
/// room behind each but the last, for which it waits until it has left; then
/// the bus is stopped.
#[verifier::spinoff_prover]
#[verifier::rlimit(80)]
pub proof fn law_write_sends_each_byte(
    address: u8,
    ops: &Vec<Op>,
    bytes: Vec<u8>,
    r: Vec<Step>,
    j: int,
)
    requires
        ops@ == seq![Op::Write(bytes)],
        call_ensures(Stm32I2c::transaction, (address, ops, false), r),
        0 <= j < bytes@.len(),
    ensures
        r@.len() == 6 + 2 * bytes@.len(),
        begins_polled(r@, address, false),
        r@[5 + 2 * j] == Step::Send(bytes@[j] as u32),
        j < bytes@.len() - 1 ==> r@[6 + 2 * j] == Step::Poll(
            Await { done: 0x80, errors: 0x4F00, stop: true },
        ),
        j == bytes@.len() - 1 ==> r@[6 + 2 * j] == Step::Poll(
            Await { done: 4, errors: 0x4F00, stop: true },
        ),
        r@.last() == Step::Raise(0x0200),
{
    reveal_with_fuel(steps, 2);
    assert(ops@[0] == Op::Write(bytes));
    let said = address_steps(Seq::empty(), address, false, false);
    assert(said.len() == 5);
    let sent = send_steps(said, bytes@, true, bytes@.len());
    lemma_sent(said, bytes@, true, bytes@.len(), j);
    assert(r@ == sent.push(Step::Raise(CR1_STOP)));
    assert(r@[5 + 2 * j] == sent[5 + 2 * j]);
    assert(r@[6 + 2 * j] == sent[5 + 2 * j + 1]);
    assert forall|i: int| 0 <= i < 5 implies #[trigger] r@[i] == said[i] by {
        assert(sent.take(5)[i] == sent[i]);
    }
}

/// A read takes each byte after it has come; the last byte is refused and the
/// bus stopped before the one before it is taken, and a byte that is alone is
/// refused at once.
#[verifier::spinoff_prover]
#[verifier::rlimit(80)]
pub proof fn law_read_takes_each_byte(
    address: u8,
    ops: &Vec<Op>,
    n: usize,
    r: Vec<Step>,
    j: int,
)
    requires
        ops@ == seq![Op::Read(n)],
        call_ensures(Stm32I2c::transaction, (address, ops, false), r),
        n >= 1,
    ensures
        begins_polled(r@, address, true),
        r@.len() == 7 + 2 * n,
        n == 1 ==> r@[5] == Step::Lower(0x0400) && r@[6] == Step::Raise(0x0200) && r@[7]
            == Step::Poll(Await { done: 0x40, errors: 0x4F00, stop: false }) && r@[8]
            == Step::Receive,
        0 <= j < n - 2 ==> r@[5 + 2 * j] == Step::Poll(
            Await { done: 0x40, errors: 0x4F00, stop: false },
        ) && r@[6 + 2 * j] == Step::Receive,
        n >= 2 ==> {
            let m = 5 + 2 * (n - 2);
            &&& r@[m] == Step::Poll(Await { done: 0x40, errors: 0x4F00, stop: false })
            &&& r@[m + 1] == Step::Lower(0x0400)
            &&& r@[m + 2] == Step::Raise(0x0200)
            &&& r@[m + 3] == Step::Receive
            &&& r@[m + 4] == Step::Poll(Await { done: 0x40, errors: 0x4F00, stop: false })
            &&& r@[m + 5] == Step::Receive
        },
{
    let said = address_steps(Seq::empty(), address, true, false);
    assert(r@ == receive_steps(said, n as nat, n as nat)) by {
        reveal_with_fuel(steps, 2);
        assert(ops@[0] == Op::Read(n));
    }
    assert(said.len() == 5);
    if n == 1 {
        law_last_byte_refused(said, 1);
        assert(r@.take(5) =~= said);
    } else {
        lemma_read_plan(said, n as nat, j);
    }
    assert forall|i: int| 0 <= i < 5 implies #[trigger] r@[i] == said[i] by {
        assert(r@.take(5)[i] == r@[i]);
    }
}

proof fn lemma_send_appends(a: Seq<Step>, b: Seq<Step>, bytes: Seq<u8>, last_op: bool, k: nat)
    ensures
        send_steps(a + b, bytes, last_op, k) == a + send_steps(b, bytes, last_op, k),
    decreases k,
{
    if k > 0 {
        lemma_send_appends(a, b, bytes, last_op, (k - 1) as nat);
        assert(send_steps(a + b, bytes, last_op, k) =~= a + send_steps(b, bytes, last_op, k));
    }
}

proof fn lemma_receive_appends(a: Seq<Step>, b: Seq<Step>, n: nat, k: nat)
    ensures
        receive_steps(a + b, n, k) == a + receive_steps(b, n, k),
    decreases k,
{
    if k > 0 {
        lemma_receive_appends(a, b, n, (k - 1) as nat);
        assert(receive_steps(a + b, n, k) =~= a + receive_steps(b, n, k));
    }
}

proof fn lemma_op_appends(said: Seq<Step>, address: u8, op: Op, last_op: bool, irq: bool)
    ensures
        op_steps(said, address, op, last_op, irq) == said + op_steps(
            Seq::empty(),
            address,
            op,
            last_op,
            irq,
        ),
{
    let none = Seq::<Step>::empty();
    match op {
        Op::Write(bytes) => {
            let b = address_steps(none, address, false, irq);
            assert(address_steps(said, address, false, irq) =~= said + b);
            lemma_send_appends(said, b, bytes@, last_op, bytes@.len());
            assert(op_steps(said, address, op, last_op, irq) =~= said + op_steps(
                none,
                address,
                op,
                last_op,
                irq,
            ));
        },
        Op::Read(n) => {
            let b = address_steps(none, address, true, irq);
            assert(address_steps(said, address, true, irq) =~= said + b);
            lemma_receive_appends(said, b, n as nat, n as nat);
        },
    }
}

/// The last operation of a transaction is planned as if it were alone, with a
/// start and an address phase of its own.
#[verifier::spinoff_prover]
#[verifier::rlimit(80)]
pub proof fn law_last_operation_stands_alone(
    address: u8,
    last: &Vec<Op>,
    all: &Vec<Op>,
    irq: bool,
    b: Vec<Step>,
    r: Vec<Step>,
)
    requires
        last@.len() == 1,
        all@.len() >= 1,
        all@.last() == last@[0],
        call_ensures(Stm32I2c::transaction, (address, last, irq), b),
        call_ensures(Stm32I2c::transaction, (address, all, irq), r),
    ensures
        r@.len() >= b@.len(),
        r@.skip(r@.len() - b@.len()) == b@,
        all@.len() == 1 ==> r@ == b@,
{
    reveal_with_fuel(steps, 2);
    let n = all@.len();
    let before = steps(address, all@, irq, (n - 1) as nat);
    lemma_op_appends(before, address, last@[0], true, irq);
    assert(steps(address, last@, irq, 0) == Seq::<Step>::empty());
    assert(r@ == before + b@);
    assert(r@.skip(r@.len() - b@.len()) =~= b@);
}

/// A wait is judged by its own bits: an error first, then the end.
pub proof fn law_wait_is_judged_by_its_bits(sr1: u32, a: Await, r: Status)
    requires
        call_ensures(Stm32I2c::judge, (sr1, a), r),
    ensures
        r is Failed <==> sr1 & a.errors != 0,
        r is Done <==> sr1 & a.errors == 0 && sr1 & a.done != 0,
        r is Again <==> sr1 & a.errors == 0 && sr1 & a.done == 0,
{
}

/// A failure clears the errors, and stops the bus exactly where that is still
/// to be done.
pub proof fn law_failure_stops_the_bus(c: &Stm32I2c, a: Await, cr1: u32, r: Vec<RegWrite>)
    requires
        c.wf(),
        call_ensures(Stm32I2c::failure, (c, a, cr1), r),
    ensures
        r@[0].address == c.base + 0x14 && r@[0].value == 0,
        a.stop ==> r@.len() == 2 && r@[1].address == c.base && r@[1].value == cr1 | 0x0200,
        !a.stop ==> r@.len() == 1,
{
}

/// The controller runs at a hundred kilohertz: two times its count of clocks of
/// a sixteenth of a microsecond make ten microseconds.
pub proof fn law_controller_is_set_up(c: &Stm32I2c, r: [RegWrite; 6])
    requires
        c.wf(),
        call_ensures(Stm32I2c::init, (c,), r),
    ensures
        r[0].address == c.base && r[0].value == 0x8000,
        r[1].address == c.base && r[1].value == 0,
        r[2].address == c.base + 4 && r[2].value == 16,
        r[3].address == c.base + 0x1C && 2 * r[3].value == 16 * 10,
        r[4].address == c.base + 0x20 && r[4].value == 16 + 1,
        r[5].address == c.base && r[5].value == 1,
{
    assert(r@[0] == r[0] && r@[1] == r[1] && r@[2] == r[2] && r@[3] == r[3] && r@[4] == r[4]
        && r@[5] == r[5]);
}

/// An event and an error both hold the two interrupts back, leave the other
/// bits alone, and fire the signal.
pub proof fn law_interrupts_fire_the_signal(
    base: usize,
    s0: &mut Signal,
    s1: &mut Signal,
    s2: &mut Signal,
    s3: &mut Signal,
    w0: &mut WakerState,
    w1: &mut WakerState,
    h0: &mut Harts,
    h1: &mut Harts,
    cr2: u32,
    ev: RegWrite,
    er: RegWrite,
    a: bool,
    b: bool,
)
    requires
        base + 4 <= usize::MAX,
        call_ensures(isr_ev, (base, s0, w0, h0, cr2), ev),
        *old(s1) == *final(s0),
        call_ensures(Signal::try_take, (s1,), a),
        call_ensures(isr_er, (base, s2, w1, h1, cr2), er),
        *old(s3) == *final(s2),
        call_ensures(Signal::try_take, (s3,), b),
    ensures
        a,
        b,
        ev.address == base + 4 && ev.value % 0x100 == cr2 % 0x100 && ev.value / 0x400 == cr2 / 0x400
            && (ev.value / 0x100) % 4 == 0,
        er == ev,
{
    let v = ev.value;
    assert(v % 0x100 == cr2 % 0x100 && v / 0x400 == cr2 / 0x400 && (v / 0x100) % 4 == 0) by (
        bit_vector)
        requires
            v == cr2 & !0x0300u32,
    ;
}

/// With interrupts the start and the address phase are waited for by signal:
/// each wait begins with an old signal forgotten and the interrupts let
/// through. The rest of the plan is the same.
#[verifier::spinoff_prover]
#[verifier::rlimit(80)]
pub proof fn law_interrupts_replace_polling(
    address: u8,
    ops: &Vec<Op>,
    p: Vec<Step>,
    q: Vec<Step>,
)
    requires
        ops@.len() == 1,
        call_ensures(Stm32I2c::transaction, (address, ops, false), p),
        call_ensures(Stm32I2c::transaction, (address, ops, true), q),
    ensures
        p@.len() >= 5,
        q@.len() == p@.len() + 5,
        q@.skip(10) == p@.skip(5),
        q@[0] is ResetSignal,
        q@[1] is EnableIrqs,
        q@[2] == p@[0],
        q@[3] is AwaitSignal,
        q@[4] is ResetSignal,
        q@[5] is EnableIrqs,
        q@[6] == p@[2],
        q@[7] is AwaitSignal,
        q@[8] is Check,
        p@[3] == Step::Poll(q@[8]->Check_0),
        q@[9] is AckAddress,
{
    reveal_with_fuel(steps, 2);
    let none = Seq::<Step>::empty();
    match ops@[0] {
        Op::Write(bytes) => {
            let a = address_steps(none, address, false, false);
            let b = address_steps(none, address, false, true);
            lemma_send_appends(a, none, bytes@, true, bytes@.len());
            lemma_send_appends(b, none, bytes@, true, bytes@.len());
            assert(a + none =~= a && b + none =~= b);
            let rest = send_steps(none, bytes@, true, bytes@.len()).push(Step::Raise(CR1_STOP));
            assert(p@ =~= a + rest);
            assert(q@ =~= b + rest);
            assert(p@.skip(5) =~= rest && q@.skip(10) =~= rest);
        },
        Op::Read(n) => {
            let a = address_steps(none, address, true, false);
            let b = address_steps(none, address, true, true);
            lemma_receive_appends(a, none, n as nat, n as nat);
            lemma_receive_appends(b, none, n as nat, n as nat);
            assert(a + none =~= a && b + none =~= b);
            let rest = receive_steps(none, n as nat, n as nat);
            assert(p@ =~= a + rest);
            assert(q@ =~= b + rest);
            assert(p@.skip(5) =~= rest && q@.skip(10) =~= rest);
        },
    }
}

/// A write that another operation follows waits for room behind every byte,
/// and does not stop the bus.
#[verifier::spinoff_prover]
#[verifier::rlimit(80)]
pub proof fn law_earlier_write_keeps_the_bus(
    address: u8,
    ops: &Vec<Op>,
    bytes: Vec<u8>,
    r: Vec<Step>,
    j: int,
)
    requires
        ops@.len() == 2,
        ops@[0] == Op::Write(bytes),
        call_ensures(Stm32I2c::transaction, (address, ops, false), r),
        0 <= j < bytes@.len(),
    ensures
        r@.len() > 5 + 2 * bytes@.len(),
        begins_polled(r@, address, false),
        r@[5 + 2 * j] == Step::Send(bytes@[j] as u32),
        r@[6 + 2 * j] == Step::Poll(Await { done: 0x80, errors: 0x4F00, stop: true }),
        r@[5 + 2 * bytes@.len() as int] == Step::Raise(0x0500),
{
    reveal_with_fuel(steps, 3);
    let none = Seq::<Step>::empty();
    let said = address_steps(none, address, false, false);
    let sent = send_steps(said, bytes@, false, bytes@.len());
    lemma_sent(said, bytes@, false, bytes@.len(), j);
    lemma_op_appends(sent, address, ops@[1], true, false);
    let second = op_steps(none, address, ops@[1], true, false);
    assert(r@ == sent + second);
    assert(r@[5 + 2 * j] == sent[5 + 2 * j]);
    assert(r@[6 + 2 * j] == sent[5 + 2 * j + 1]);
    assert forall|i: int| 0 <= i < 5 implies #[trigger] r@[i] == said[i] by {
        assert(sent.take(5)[i] == sent[i]);
    }
    match ops@[1] {
        Op::Write(more) => {
            let a = address_steps(none, address, false, false);
            lemma_send_appends(a, none, more@, true, more@.len());
            assert(a + none =~= a);
            assert(second[0] == a[0]);
        },
        Op::Read(n) => {
            let a = address_steps(none, address, true, false);
            lemma_receive_appends(a, none, n as nat, n as nat);
            assert(a + none =~= a);
            assert(second[0] == a[0]);
        },
    }
    assert(r@[5 + 2 * bytes@.len() as int] == second[0]);
}

} // verus!
