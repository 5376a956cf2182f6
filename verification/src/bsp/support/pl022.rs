//! The PL022 serial port controller.
//!
//! Every word that is sent brings one back. A transfer is cut into rounds that
//! fit the controller's buffers; the words of a round are sent, and once the
//! interrupt has come the words that came back are taken out.
use crate::mmio::RegWrite;
use crate::port::arch::Harts;
use crate::sync::signal::{signalled, Signal};
use crate::waker::WakerState;
use vstd::prelude::*;

verus! {

/// First control register.
pub const CR0: usize = 0x000;

/// Second control register.
pub const CR1: usize = 0x004;

/// Data register.
pub const DR: usize = 0x008;

/// Status register.
pub const SR: usize = 0x00C;

/// Clock prescale register.
pub const CPSR: usize = 0x010;

/// Interrupt mask register.
pub const IMSC: usize = 0x014;

/// There is room to send.
pub const SR_TNF: u32 = 0x02;

/// There is something to receive.
pub const SR_RNE: u32 = 0x04;

/// A transfer is going on.
pub const SR_BSY: u32 = 0x10;

/// What is sent comes back.
pub const CR1_LBM: u32 = 1;

/// The controller is on.
pub const CR1_SSE: u32 = 2;

/// Interrupt when words have come back.
pub const IMSC_RXIM: u32 = 4;

/// Words that the controller's buffers hold.
pub const FIFO_DEPTH: usize = 8;

/// One controller.
pub struct Pl022 {
    /// Address of its registers.
    pub base: usize,
}

/// Word `i` of a transfer: zero past what there is to send.
pub open spec fn word_sent(write: Seq<u8>, i: int) -> u8 {
    if 0 <= i < write.len() {
        write[i]
    } else {
        0
    }
}

/// Words of a transfer that reads `read` words and sends `write`.
pub open spec fn transfer_len(read: nat, write: Seq<u8>) -> nat {
    if read > write.len() {
        read
    } else {
        write.len()
    }
}

/// Where the round that begins at word `i` of `n` ends.
pub open spec fn round_end(i: int, n: int) -> int {
    if i + FIFO_DEPTH < n {
        i + FIFO_DEPTH
    } else {
        n
    }
}

impl Pl022 {
    /// The controller with its registers at `base`, of which the caller is the
    /// only user.
    pub fn new(base: usize) -> (r: Self)
        ensures
            r.base == base,
    {
        Pl022 { base }
    }

    /// Its registers can be addressed.
    pub open spec fn wf(&self) -> bool {
        self.base + 0x1000 <= usize::MAX
    }

    /// Turn the controller on, as a master with words of eight bits.
    pub fn init(&self, loopback: bool) -> (r: [RegWrite; 4])
        requires
            self.wf(),
        ensures
            r@ == seq![
                RegWrite::of_word((self.base + CR1) as usize, 0),
                RegWrite::of_word((self.base + CPSR) as usize, 2),
                RegWrite::of_word((self.base + CR0) as usize, 7),
                RegWrite::of_word(
                    (self.base + CR1) as usize,
                    if loopback {
                        3
                    } else {
                        2
                    },
                ),
            ],
    {
        let cr1: u32 = if loopback {
            CR1_SSE + CR1_LBM
        } else {
            CR1_SSE
        };
        let writes = [
            RegWrite::word(self.base + CR1, 0),
            RegWrite::word(self.base + CPSR, 2),
            RegWrite::word(self.base + CR0, 7),
            RegWrite::word(self.base + CR1, cr1),
        ];
        assert(writes@ =~= seq![
            RegWrite::of_word((self.base + CR1) as usize, 0),
            RegWrite::of_word((self.base + CPSR) as usize, 2),
            RegWrite::of_word((self.base + CR0) as usize, 7),
            RegWrite::of_word((self.base + CR1) as usize, cr1),
        ]);
        writes
    }

    /// Whether there is room to send, by the status word.
    pub fn can_send(status: u32) -> (r: bool)
        ensures
            r == (status & SR_TNF != 0),
    {
        status & SR_TNF != 0
    }

    /// Whether a word has come back, by the status word.
    pub fn can_receive(status: u32) -> (r: bool)
        ensures
            r == (status & SR_RNE != 0),
    {
        status & SR_RNE != 0
    }

    /// Whether a transfer is going on, by the status word.
    pub fn is_busy(status: u32) -> (r: bool)
        ensures
            r == (status & SR_BSY != 0),
    {
        status & SR_BSY != 0
    }

    /// Begin a round: forget an old signal, and ask for the interrupt.
    pub fn begin_round(&self, sig: &mut Signal) -> (r: RegWrite)
        requires
            self.wf(),
        ensures
            !final(sig).fired,
            final(sig).waiter == old(sig).waiter,
            r == RegWrite::of_word((self.base + IMSC) as usize, IMSC_RXIM),
    {
        sig.reset();
        RegWrite::word(self.base + IMSC, IMSC_RXIM)
    }

    /// The words that the round from word `i` of a transfer sends; `read` is
    /// how many words the transfer reads.
    pub fn round(read: usize, write: &[u8], i: usize) -> (r: Vec<u8>)
        requires
            i < transfer_len(read as nat, write@),
        ensures
            r@.len() == round_end(i as int, transfer_len(read as nat, write@) as int) - i,
            1 <= r@.len() <= FIFO_DEPTH,
            forall|k: int| 0 <= k < r@.len() ==> #[trigger] r@[k] == word_sent(write@, i + k),
    {
        let n: usize = if read > write.len() {
            read
        } else {
            write.len()
        };
        let count: usize = if n - i > FIFO_DEPTH {
            FIFO_DEPTH
        } else {
            n - i
        };
        let mut tx: Vec<u8> = Vec::new();
        let mut k: usize = 0;
        while k < count
            invariant
                k <= count,
                i + count <= n,
                tx@.len() == k,
                forall|j: int| 0 <= j < k ==> #[trigger] tx@[j] == word_sent(write@, i + j),
            decreases count - k,
        {
            let word: u8 = if i + k < write.len() {
                write[i + k]
            } else {
                0
            };
            tx.push(word);
            k = k + 1;
        }
        tx
    }

    /// Keep the words that came back in the round from word `i`, as far as
    /// they were asked for.
    pub fn keep(read: &mut Vec<u8>, i: usize, rx: &[u8])
        requires
            i + rx@.len() <= usize::MAX,
        ensures
            final(read)@.len() == old(read)@.len(),
            forall|j: int|
                0 <= j < old(read)@.len() ==> #[trigger] final(read)@[j] == (if i <= j < i
                    + rx@.len() {
                    rx@[j - i]
                } else {
                    old(read)@[j]
                }),
    {
        let n: usize = rx.len();
        let mut k: usize = 0;
        while k < n
            invariant
                k <= n,
                n == rx@.len(),
                i + n <= usize::MAX,
                read@.len() == old(read)@.len(),
                forall|j: int|
                    0 <= j < read@.len() ==> #[trigger] read@[j] == (if i <= j < i + k {
                        rx@[j - i]
                    } else {
                        old(read)@[j]
                    }),
            decreases n - k,
        {
            if i + k < read.len() {
                read.set(i + k, rx[k]);
            }
            k = k + 1;
        }
    }
}

/// The interrupt came: it is masked, since it stays up until the words are
/// taken out, and the waiting task is woken to do that.
pub fn isr_ack(base: usize, sig: &mut Signal, w: &mut WakerState, h: &mut Harts) -> (r: RegWrite)
    requires
        base + IMSC <= usize::MAX,
        old(sig).wf(),
    ensures
        r == RegWrite::of_word((base + IMSC) as usize, 0),
        final(sig).wf(),
        signalled(old(sig), final(sig), old(w), final(w), old(h), final(h)),
{
    sig.signal(w, h);
    RegWrite::word(base + IMSC, 0)
}

/// The rounds of a transfer follow one another without a gap: each is not
/// empty, and the last ends with the transfer.
pub proof fn law_rounds_cover(i: int, n: int)
    requires
        0 <= i < n,
    ensures
        i < round_end(i, n) <= n,
        round_end(i, n) - i <= FIFO_DEPTH,
        round_end(i, n) < n ==> round_end(i, n) - i == FIFO_DEPTH,
{
}

/// A round sends the next words of the transfer, up to eight of them and no
/// more than the transfer has; where there is nothing to send it sends zero.
pub proof fn law_round_sends_the_next_words(
    read: usize,
    write: &[u8],
    i: usize,
    r: Vec<u8>,
    k: int,
)
    requires
        i < read || i < write@.len(),
        call_ensures(Pl022::round, (read, write, i), r),
    ensures
        r@.len() <= 8,
        i + r@.len() <= read || i + r@.len() <= write@.len(),
        r@.len() < 8 ==> i + r@.len() >= read && i + r@.len() >= write@.len(),
        0 <= k < r@.len() && i + k < write@.len() ==> r@[k] == write@[i + k],
        0 <= k < r@.len() && i + k >= write@.len() ==> r@[k] == 0,
{
}

/// The words that came back go to where the round began, and what lies beyond
/// the buffer is dropped; everything else in it stays.
pub proof fn law_words_are_kept_in_place(read: &mut Vec<u8>, i: usize, rx: &[u8], j: int)
    requires
        call_ensures(Pl022::keep, (read, i, rx), ()),
        0 <= j < old(read)@.len(),
    ensures
        final(read)@.len() == old(read)@.len(),
        j < i ==> final(read)@[j] == old(read)@[j],
        i <= j && j - i < rx@.len() ==> final(read)@[j] == rx@[j - i],
        j - i >= rx@.len() ==> final(read)@[j] == old(read)@[j],
{
}

/// The status word tells room to send, something to receive and a transfer
/// going on by its bits 1, 2 and 4.
pub proof fn law_status_bits(status: u32, s: bool, r: bool, b: bool)
    requires
        call_ensures(Pl022::can_send, (status,), s),
        call_ensures(Pl022::can_receive, (status,), r),
        call_ensures(Pl022::is_busy, (status,), b),
    ensures
        s == ((status / 2) % 2 == 1),
        r == ((status / 4) % 2 == 1),
        b == ((status / 16) % 2 == 1),
{
    assert((status & 2 != 0) == ((status / 2) % 2 == 1)) by (bit_vector);
    assert((status & 4 != 0) == ((status / 4) % 2 == 1)) by (bit_vector);
    assert((status & 16 != 0) == ((status / 16) % 2 == 1)) by (bit_vector);
}

/// A round begins with an old signal forgotten and the interrupt asked for; the
/// interrupt masks itself and fires the signal, which is then there to take.
pub proof fn law_round_waits_for_its_interrupt(
    c: &Pl022,
    s0: &mut Signal,
    s1: &mut Signal,
    s2: &mut Signal,
    s3: &mut Signal,
    w: &mut WakerState,
    h: &mut Harts,
    ask: RegWrite,
    mask: RegWrite,
    early: bool,
    there: bool,
)
    requires
        c.wf(),
        call_ensures(Pl022::begin_round, (c, s0), ask),
        *old(s1) == *final(s0),
        call_ensures(Signal::try_take, (s1,), early),
        *old(s2) == *final(s1),
        call_ensures(isr_ack, (c.base, s2, w, h), mask),
        *old(s3) == *final(s2),
        call_ensures(Signal::try_take, (s3,), there),
    ensures
        ask.address == c.base + 0x14 && ask.value == 4,
        !early,
        mask.address == c.base + 0x14 && mask.value == 0,
        there,
{
}

/// The controller is turned off, set to words of eight bits, and turned on; a
/// loopback is asked for by its own bit.
pub proof fn law_controller_is_set_up(c: &Pl022, loopback: bool, r: [RegWrite; 4])
    requires
        c.wf(),
        call_ensures(Pl022::init, (c, loopback), r),
    ensures
        r[0].address == c.base + 4 && r[0].value == 0,
        r[1].address == c.base + 0x10 && r[1].value == 2,
        r[2].address == c.base && r[2].value == 7,
        r[3].address == c.base + 4,
        loopback ==> r[3].value == 3,
        !loopback ==> r[3].value == 2,
{
    assert(r@[0] == r[0] && r@[1] == r[1] && r@[2] == r[2] && r@[3] == r[3]);
}

} // verus!
