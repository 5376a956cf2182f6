//! The I2C master of the LM3S6965.
//!
//! A transaction is a sequence of commands to the controller. Every operation
//! begins with a start and ends with a stop: the controller has no repeated
//! start.
use crate::mmio::RegWrite;
use crate::port::arch::Harts;
use crate::sync::signal::{signalled, Signal};
use crate::waker::WakerState;
use vstd::prelude::*;

verus! {

/// Slave address register.
pub const I2CMSA: usize = 0x000;

/// Control and status register.
pub const I2CMCS: usize = 0x004;

/// Data register.
pub const I2CMDR: usize = 0x008;

/// Timer period register.
pub const I2CMTPR: usize = 0x00C;

/// Interrupt mask register.
pub const I2CMIMR: usize = 0x010;

/// Interrupt clear register.
pub const I2CMICR: usize = 0x01C;

/// Configuration register.
pub const I2CMCR: usize = 0x020;

/// Command: transfer a byte.
pub const CS_RUN: u32 = 1;

/// Command: with a start before it.
pub const CS_START: u32 = 2;

/// Command: with a stop after it.
pub const CS_STOP: u32 = 4;

/// Command: acknowledge the byte.
pub const CS_ACK: u32 = 8;

/// Status: a command is going on.
pub const CS_BUSY: u32 = 1;

/// Status: the command failed.
pub const CS_ERROR: u32 = 2;

/// Turns the master on.
pub const CR_MFE: u32 = 0x10;

/// A transaction failed: an address or a byte was not acknowledged, or
/// arbitration was lost.
#[derive(Debug, Clone, Copy, PartialEq, Eq, Structural)]
pub struct Nak;

/// One controller.
pub struct StellarisI2c {
    /// Address of its registers.
    pub base: usize,
}

/// One operation of a transaction.
pub enum Op {
    /// Send bytes.
    Write(Vec<u8>),
    /// Receive this many bytes.
    Read(usize),
}

/// One step of a transaction.
#[derive(Debug, Clone, Copy, PartialEq, Eq, Structural)]
pub enum Step {
    /// Select the slave and the direction.
    Address(u32),
    /// Put a byte into the data register.
    Send(u8),
    /// Give a command, wait for it, and stop on an error.
    Run(u32),
    /// Take the received byte out of the data register.
    Receive,
}

/// The word that selects a slave and a direction.
pub open spec fn address_word(address: u8, read: bool) -> u32 {
    (2 * address + if read {
        1int
    } else {
        0
    }) as u32
}

/// The command for byte `j` of the `n` that an operation sends.
pub open spec fn write_command(j: int, n: int) -> u32 {
    (CS_RUN + (if j == 0 {
        CS_START
    } else {
        0
    }) + (if j + 1 == n {
        CS_STOP
    } else {
        0
    })) as u32
}

/// The command for byte `j` of the `n` that an operation receives: all but the
/// last are acknowledged.
pub open spec fn read_command(j: int, n: int) -> u32 {
    (CS_RUN + (if j == 0 {
        CS_START
    } else {
        0
    }) + (if j + 1 == n {
        CS_STOP
    } else {
        CS_ACK
    })) as u32
}

/// `said`, followed by the steps that send the first `k` bytes.
pub open spec fn send_steps(said: Seq<Step>, bytes: Seq<u8>, k: nat) -> Seq<Step>
    decreases k,
{
    if k == 0 {
        said
    } else {
        send_steps(said, bytes, (k - 1) as nat).push(Step::Send(bytes[k - 1])).push(
            Step::Run(write_command(k - 1, bytes.len() as int)),
        )
    }
}

/// `said`, followed by the steps that receive the first `k` of `n` bytes.
pub open spec fn receive_steps(said: Seq<Step>, n: nat, k: nat) -> Seq<Step>
    decreases k,
{
    if k == 0 {
        said
    } else {
        receive_steps(said, n, (k - 1) as nat).push(Step::Run(read_command(k - 1, n as int))).push(
            Step::Receive,
        )
    }
}

/// `said`, followed by the steps of one operation.
pub open spec fn op_steps(said: Seq<Step>, address: u8, op: Op) -> Seq<Step> {
    match op {
        Op::Write(bytes) => send_steps(
            said.push(Step::Address(address_word(address, false))),
            bytes@,
            bytes@.len(),
        ),
        Op::Read(n) => receive_steps(
            said.push(Step::Address(address_word(address, true))),
            n as nat,
            n as nat,
        ),
    }
}

/// The steps of the first `k` operations of a transaction.
pub open spec fn steps(address: u8, ops: Seq<Op>, k: nat) -> Seq<Step>
    decreases k,
{
    if k == 0 {
        Seq::empty()
    } else {
        op_steps(steps(address, ops, (k - 1) as nat), address, ops[k - 1])
    }
}

/// How a command stands, by the status word.
#[derive(Debug, Clone, Copy, PartialEq, Eq, Structural)]
pub enum Outcome {
    /// It is still going on.
    Busy,
    /// It is done.
    Done,
    /// It failed.
    Failed,
}

impl StellarisI2c {
    /// The controller with its registers at `base`, of which the caller is the
    /// only user.
    pub fn new(base: usize) -> (r: Self)
        ensures
            r.base == base,
    {
        StellarisI2c { base }
    }

    /// Turn the controller on and let its interrupt through.
    pub fn init(&self) -> (r: [RegWrite; 3])
        requires
            self.base + 0x1000 <= usize::MAX,
        ensures
            r@ == seq![
                RegWrite::of_word((self.base + I2CMCR) as usize, CR_MFE),
                RegWrite::of_word((self.base + I2CMTPR) as usize, 7),
                RegWrite::of_word((self.base + I2CMIMR) as usize, 1),
            ],
    {
        let writes = [
            RegWrite::word(self.base + I2CMCR, CR_MFE),
            RegWrite::word(self.base + I2CMTPR, 7),
            RegWrite::word(self.base + I2CMIMR, 1),
        ];
        assert(writes@ =~= seq![
            RegWrite::of_word((self.base + I2CMCR) as usize, CR_MFE),
            RegWrite::of_word((self.base + I2CMTPR) as usize, 7),
            RegWrite::of_word((self.base + I2CMIMR) as usize, 1),
        ]);
        writes
    }

    /// How a command stands, by the status word.
    pub fn outcome(mcs: u32) -> (r: Outcome)
        ensures
            r == (if mcs & CS_BUSY != 0 {
                Outcome::Busy
            } else if mcs & CS_ERROR != 0 {
                Outcome::Failed
            } else {
                Outcome::Done
            }),
    {
        if mcs & CS_BUSY != 0 {
            Outcome::Busy
        } else if mcs & CS_ERROR != 0 {
            Outcome::Failed
        } else {
            Outcome::Done
        }
    }

    /// The result of a command that is over.
    pub fn result(mcs: u32) -> (r: Result<(), Nak>)
        ensures
            r is Err == (mcs & CS_ERROR != 0),
    {
        if mcs & CS_ERROR != 0 {
            Err(Nak)
        } else {
            Ok(())
        }
    }

    /// The command was given and the status read. A command that is already
    /// over yields its result, and the signal that may have fired for it is
    /// taken; otherwise the caller waits for the signal and then asks for the
    /// [`result`](Self::result).
    pub fn run_begun(sig: &mut Signal, mcs: u32) -> (r: Option<Result<(), Nak>>)
        ensures
            final(sig).waiter == old(sig).waiter,
            r is None <==> mcs & CS_BUSY != 0,
            r is None ==> final(sig).fired == old(sig).fired,
            r matches Some(v) ==> !final(sig).fired && (v is Err == (mcs & CS_ERROR != 0)),
    {
        if mcs & CS_BUSY != 0 {
            return None;
        }
        let _taken = sig.try_take();
        Some(Self::result(mcs))
    }

    /// The steps of a transaction with the slave at `address`.
    pub fn transaction(address: u8, ops: &Vec<Op>) -> (r: Vec<Step>)
        ensures
            r@ == steps(address, ops@, ops@.len()),
    {
        let mut plan: Vec<Step> = Vec::new();
        let mut i: usize = 0;
        assert(plan@ =~= Seq::<Step>::empty());
        while i < ops.len()
            invariant
                i <= ops@.len(),
                plan@ == steps(address, ops@, i as nat),
            decreases ops@.len() - i,
        {
            match &ops[i] {
                Op::Write(bytes) => {
                    plan.push(Step::Address(2 * address as u32));
                    let ghost said = plan@;
                    let n: usize = bytes.len();
                    let mut j: usize = 0;
                    while j < n
                        invariant
                            j <= n,
                            n == bytes@.len(),
                            plan@ == send_steps(said, bytes@, j as nat),
                        decreases n - j,
                    {
                        let mut command: u32 = CS_RUN;
                        if j == 0 {
                            command = command + CS_START;
                        }
                        if j + 1 == n {
                            command = command + CS_STOP;
                        }
                        plan.push(Step::Send(bytes[j]));
                        plan.push(Step::Run(command));
                        j = j + 1;
                    }
                },
                Op::Read(n) => {
                    plan.push(Step::Address(2 * address as u32 + 1));
                    let ghost said = plan@;
                    let mut j: usize = 0;
                    while j < *n
                        invariant
                            j <= *n,
                            plan@ == receive_steps(said, *n as nat, j as nat),
                        decreases *n - j,
                    {
                        let mut command: u32 = CS_RUN;
                        if j == 0 {
                            command = command + CS_START;
                        }
                        if j + 1 == *n {
                            command = command + CS_STOP;
                        } else {
                            command = command + CS_ACK;
                        }
                        plan.push(Step::Run(command));
                        plan.push(Step::Receive);
                        j = j + 1;
                    }
                },
            }
            i = i + 1;
        }
        plan
    }
}

/// The interrupt came: it is cleared, and the waiting task is woken.
pub fn isr_ack(base: usize, sig: &mut Signal, w: &mut WakerState, h: &mut Harts) -> (r: RegWrite)
    requires
        base + I2CMICR <= usize::MAX,
        old(sig).wf(),
    ensures
        r == RegWrite::of_word((base + I2CMICR) as usize, 1),
        final(sig).wf(),
        signalled(old(sig), final(sig), old(w), final(w), old(h), final(h)),
{
    sig.signal(w, h);
    RegWrite::word(base + I2CMICR, 1)
}

/// A start comes with the first byte of an operation and no other; a stop with
/// the last and no other; and a received byte is acknowledged exactly when
/// another follows.
pub proof fn law_command_bits(j: int, n: int)
    requires
        0 <= j < n,
    ensures
        write_command(j, n) & CS_START != 0 <==> j == 0,
        write_command(j, n) & CS_STOP != 0 <==> j + 1 == n,
        write_command(j, n) & CS_ACK == 0,
        read_command(j, n) & CS_START != 0 <==> j == 0,
        read_command(j, n) & CS_STOP != 0 <==> j + 1 == n,
        read_command(j, n) & CS_ACK != 0 <==> j + 1 < n,
{
    assert(forall|c: u32| #[trigger] (c & 2) != 0 <==> (c / 2) % 2 == 1) by (bit_vector);
    assert(forall|c: u32| #[trigger] (c & 4) != 0 <==> (c / 4) % 2 == 1) by (bit_vector);
    assert(forall|c: u32| #[trigger] (c & 8) != 0 <==> (c / 8) % 2 == 1) by (bit_vector);
}

proof fn lemma_sent(said: Seq<Step>, bytes: Seq<u8>, k: nat)
    ensures
        send_steps(said, bytes, k).len() == said.len() + 2 * k,
        send_steps(said, bytes, k).take(said.len() as int) == said,
        forall|j: int|
            #![trigger bytes[j]]
            0 <= j < k ==> send_steps(said, bytes, k)[said.len() as int + 2 * j] == Step::Send(
                bytes[j],
            ) && send_steps(said, bytes, k)[said.len() as int + 2 * j + 1] == Step::Run(
                write_command(j, bytes.len() as int),
            ),
    decreases k,
{
    if k > 0 {
        lemma_sent(said, bytes, (k - 1) as nat);
        let before = send_steps(said, bytes, (k - 1) as nat);
        let after = send_steps(said, bytes, k);
        assert(after.take(said.len() as int) =~= before.take(said.len() as int));
        assert forall|j: int|
            #![trigger bytes[j]]
            0 <= j < k implies after[said.len() as int + 2 * j] == Step::Send(bytes[j])
            && after[said.len() as int + 2 * j + 1] == Step::Run(
            write_command(j, bytes.len() as int),
        ) by {
            if j < k - 1 {
                assert(after[said.len() as int + 2 * j] == before[said.len() as int + 2 * j]);
                assert(after[said.len() as int + 2 * j + 1] == before[said.len() as int + 2 * j
                    + 1]);
            }
        }
    } else {
        assert(said.take(said.len() as int) =~= said);
    }
}

proof fn lemma_received(said: Seq<Step>, n: nat, k: nat, j: int)
    requires
        0 <= j < k,
    ensures
        receive_steps(said, n, k).len() == said.len() + 2 * k,
        receive_steps(said, n, k).take(said.len() as int) == said,
        receive_steps(said, n, k)[said.len() as int + 2 * j] == Step::Run(
            read_command(j, n as int),
        ),
        receive_steps(said, n, k)[said.len() as int + 2 * j + 1] == Step::Receive,
    decreases k,
{
    let before = receive_steps(said, n, (k - 1) as nat);
    let after = receive_steps(said, n, k);
    if k == 1 {
        assert(before == said);
        assert(after.take(said.len() as int) =~= said);
    } else {
        let i = if j < k - 1 {
            j
        } else {
            0
        };
        lemma_received(said, n, (k - 1) as nat, i);
        assert(after.take(said.len() as int) =~= before.take(said.len() as int));
        if j < k - 1 {
            assert(after[said.len() as int + 2 * j] == before[said.len() as int + 2 * j]);
            assert(after[said.len() as int + 2 * j + 1] == before[said.len() as int + 2 * j + 1]);
        }
    }
}

/// A write selects the slave for writing, puts each byte into the data register
/// in order and runs it, the first with a start and the last with a stop.
#[verifier::spinoff_prover]
#[verifier::rlimit(60)]
pub proof fn law_write_sends_each_byte(
    address: u8,
    ops: &Vec<Op>,
    bytes: Vec<u8>,
    r: Vec<Step>,
    j: int,
    c: u32,
)
    requires
        ops@ == seq![Op::Write(bytes)],
        call_ensures(StellarisI2c::transaction, (address, ops), r),
        0 <= j < bytes@.len(),
        c == 1 + (if j == 0 {
            2int
        } else {
            0
        }) + (if j == bytes@.len() - 1 {
            4int
        } else {
            0
        }),
    ensures
        r@.len() == 1 + 2 * bytes@.len(),
        r@[0] == Step::Address((2 * address) as u32),
        r@[1 + 2 * j] == Step::Send(bytes@[j]),
        r@[2 + 2 * j] == Step::Run(c),
{
    reveal_with_fuel(steps, 2);
    let said = Seq::<Step>::empty().push(Step::Address(address_word(address, false)));
    assert(ops@[0] == Op::Write(bytes));
    lemma_sent(said, bytes@, bytes@.len());
    assert(r@[1 + 2 * j] == Step::Send(bytes@[j]));
    assert(r@[1 + 2 * j + 1] == Step::Run(write_command(j, bytes@.len() as int)));
    assert(write_command(j, bytes@.len() as int) == c);
    assert(r@.take(1)[0] == r@[0]);
}

/// A read selects the slave for reading and runs each byte before it takes it
/// out, the first with a start, the last with a stop, and every other one with
/// an acknowledgement.
#[verifier::spinoff_prover]
#[verifier::rlimit(60)]
pub proof fn law_read_takes_each_byte(
    address: u8,
    ops: &Vec<Op>,
    n: usize,
    r: Vec<Step>,
    j: int,
    c: u32,
)
    requires
        ops@ == seq![Op::Read(n)],
        call_ensures(StellarisI2c::transaction, (address, ops), r),
        0 <= j < n,
        c == 1 + (if j == 0 {
            2int
        } else {
            0
        }) + (if j == n - 1 {
            4int
        } else {
            8
        }),
    ensures
        r@.len() == 1 + 2 * n,
        r@[0] == Step::Address((2 * address + 1) as u32),
        r@[1 + 2 * j] == Step::Run(c),
        r@[2 + 2 * j] == Step::Receive,
{
    reveal_with_fuel(steps, 2);
    let said = Seq::<Step>::empty().push(Step::Address(address_word(address, true)));
    assert(ops@[0] == Op::Read(n));
    lemma_received(said, n as nat, n as nat, j);
    assert(r@.take(1)[0] == r@[0]);
}

proof fn lemma_op_appends(said: Seq<Step>, address: u8, op: Op)
    ensures
        op_steps(said, address, op) == said + op_steps(Seq::empty(), address, op),
{
    match op {
        Op::Write(bytes) => {
            let word = Step::Address(address_word(address, false));
            lemma_send_appends(said, seq![word], bytes@, bytes@.len());
            assert(said + seq![word] =~= said.push(word));
            assert(Seq::<Step>::empty().push(word) =~= seq![word]);
        },
        Op::Read(n) => {
            let word = Step::Address(address_word(address, true));
            lemma_receive_appends(said, seq![word], n as nat, n as nat);
            assert(said + seq![word] =~= said.push(word));
            assert(Seq::<Step>::empty().push(word) =~= seq![word]);
        },
    }
}

proof fn lemma_send_appends(a: Seq<Step>, b: Seq<Step>, bytes: Seq<u8>, k: nat)
    ensures
        send_steps(a + b, bytes, k) == a + send_steps(b, bytes, k),
    decreases k,
{
    if k > 0 {
        lemma_send_appends(a, b, bytes, (k - 1) as nat);
        assert(send_steps(a + b, bytes, k) =~= a + send_steps(b, bytes, k));
    }
}

proof fn lemma_receive_appends(a: Seq<Step>, b: Seq<Step>, n: nat, k: nat)
    ensures
        receive_steps(a + b, n, k) == a + receive_steps(b, n, k),
    decreases k,
{
    if k > 0 {
        lemma_receive_appends(a, b, n, (k - 1) as nat);
        assert(receive_steps(a + b, n, k) =~= a + receive_steps(b, n, k));
    }
}

proof fn lemma_steps_prefix(address: u8, a: Seq<Op>, b: Seq<Op>, k: nat)
    requires
        k <= a.len(),
        k <= b.len(),
        forall|i: int| 0 <= i < k ==> #[trigger] a[i] == b[i],
    ensures
        steps(address, a, k) == steps(address, b, k),
    decreases k,
{
    if k > 0 {
        lemma_steps_prefix(address, a, b, (k - 1) as nat);
        assert(a[k - 1] == b[k - 1]);
    }
}

/// The operations of a transaction follow one another, each as if it were
/// alone.
#[verifier::spinoff_prover]
#[verifier::rlimit(60)]
pub proof fn law_operations_follow_one_another(
    address: u8,
    some: &Vec<Op>,
    last: &Vec<Op>,
    all: &Vec<Op>,
    a: Vec<Step>,
    b: Vec<Step>,
    r: Vec<Step>,
)
    requires
        last@.len() == 1,
        all@ == some@ + last@,
        call_ensures(StellarisI2c::transaction, (address, some), a),
        call_ensures(StellarisI2c::transaction, (address, last), b),
        call_ensures(StellarisI2c::transaction, (address, all), r),
    ensures
        r@ == a@ + b@,
        some@.len() == 0 ==> a@.len() == 0,
{
    let n = some@.len();
    reveal_with_fuel(steps, 2);
    lemma_steps_prefix(address, some@, all@, n);
    assert(all@[n as int] == last@[0]);
    lemma_op_appends(a@, address, last@[0]);
    assert(steps(address, last@, 0) == Seq::<Step>::empty());
}

/// A command that is over has failed exactly if the status word has bit 1, and
/// is going on while it has bit 0; a signal that fired for one that is over is
/// taken.
pub proof fn law_outcome_goes_by_the_status(
    mcs: u32,
    o: Outcome,
    v: Result<(), Nak>,
    sig: &mut Signal,
    b: Option<Result<(), Nak>>,
)
    requires
        call_ensures(StellarisI2c::outcome, (mcs,), o),
        call_ensures(StellarisI2c::result, (mcs,), v),
        call_ensures(StellarisI2c::run_begun, (sig, mcs), b),
    ensures
        o is Busy <==> mcs % 2 == 1,
        o is Failed <==> mcs % 2 == 0 && (mcs / 2) % 2 == 1,
        v is Err <==> (mcs / 2) % 2 == 1,
        b is None <==> mcs % 2 == 1,
        b is None ==> final(sig).fired == old(sig).fired,
        b is Some ==> !final(sig).fired && (b->0 is Err <==> (mcs / 2) % 2 == 1),
{
    assert((mcs & 1 != 0) == (mcs % 2 == 1)) by (bit_vector);
    assert((mcs & 2 != 0) == ((mcs / 2) % 2 == 1)) by (bit_vector);
}

/// The interrupt is cleared at its register and fires the signal.
pub proof fn law_interrupt_fires_the_signal(
    base: usize,
    s0: &mut Signal,
    s1: &mut Signal,
    w: &mut WakerState,
    h: &mut Harts,
    r: RegWrite,
    there: bool,
)
    requires
        base + 0x1C <= usize::MAX,
        call_ensures(isr_ack, (base, s0, w, h), r),
        *old(s1) == *final(s0),
        call_ensures(Signal::try_take, (s1,), there),
    ensures
        r.address == base + 0x1C && r.value == 1,
        there,
{
}

/// The controller is turned on, its clock set and its interrupt let through.
pub proof fn law_controller_is_set_up(c: &StellarisI2c, r: [RegWrite; 3])
    requires
        c.base + 0x1000 <= usize::MAX,
        call_ensures(StellarisI2c::init, (c,), r),
    ensures
        r[0].address == c.base + 0x20 && r[0].value == 0x10,
        r[1].address == c.base + 0xC && r[1].value == 7,
        r[2].address == c.base + 0x10 && r[2].value == 1,
{
    assert(r@[0] == r[0] && r@[1] == r[1] && r@[2] == r[2]);
}

} // verus!
