//! Pins of the STM32F401, with their direction in their type.
//!
//! A port is deaf until its clock is on, so making a pin an output turns the
//! clock on as well. What is read at a pin and what is driven onto it are two
//! registers.
use crate::bits::{self, bit};
use crate::mmio::RegWrite;
use core::marker::PhantomData;
use vstd::prelude::*;

verus! {

/// Port A.
pub const PORT_A: usize = 0x4002_0000;

/// Port B.
pub const PORT_B: usize = 0x4002_0400;

/// Port C.
pub const PORT_C: usize = 0x4002_0800;

/// Port D.
pub const PORT_D: usize = 0x4002_0C00;

/// Port E.
pub const PORT_E: usize = 0x4002_1000;

/// Port H.
pub const PORT_H: usize = 0x4002_1C00;

/// Mode register, two bits per pin.
pub const MODER: usize = 0x00;

/// What is read at the pins.
pub const IDR: usize = 0x10;

/// What is driven onto the pins.
pub const ODR: usize = 0x14;

/// Sets and resets single pins.
pub const BSRR: usize = 0x18;

/// Clock gates of the ports.
pub const RCC_AHB1ENR: usize = 0x4002_3830;

/// The clock-gate bit of the port at `base`: ports follow one another at equal
/// distances.
pub open spec fn clock_bit(base: usize) -> int {
    (base - PORT_A) / 0x400
}

/// See [`clock_bit`]. There is no port below the first.
pub fn ahb1enr_bit(base: usize) -> (r: u32)
    requires
        base >= PORT_A,
        clock_bit(base) <= u32::MAX,
    ensures
        r == clock_bit(base),
{
    ((base - PORT_A) / 0x400) as u32
}

/// The pin is an input.
pub struct Input;

/// The pin is an output.
pub struct Output;

/// Pin `N` of the port at `BASE`.
pub struct Pin<const BASE: usize, const N: u8, MODE> {
    mode: PhantomData<MODE>,
}

/// There is such a pin.
pub open spec fn exists_pin(base: usize, n: u8) -> bool {
    &&& n < 16
    &&& base >= PORT_A
    &&& clock_bit(base) < 32
    &&& base + 0x400 <= usize::MAX
}

/// The two mode bits of pin `n`.
pub open spec fn mode_of(moder: u32, n: u32) -> u32 {
    (moder >> (2 * n) as u32) & 3
}

/// `post` is `pre` with the mode of pin `n` as given.
pub open spec fn with_mode(pre: u32, post: u32, n: u32, mode: u32) -> bool {
    forall|k: u32| k < 16 ==> #[trigger] mode_of(post, k) == (if k == n {
        mode
    } else {
        mode_of(pre, k)
    })
}

proof fn lemma_mode_set(moder: u32, n: u32, mode: u32)
    requires
        n < 16,
        mode < 4,
    ensures
        with_mode(
            moder,
            (moder & !(3u32 << ((2 * n) as u32))) | (mode << ((2 * n) as u32)),
            n,
            mode,
        ),
{
    let s = (2 * n) as u32;
    let post = (moder & !(3u32 << s)) | (mode << s);
    assert forall|k: u32| k < 16 implies #[trigger] mode_of(post, k) == (if k == n {
        mode
    } else {
        mode_of(moder, k)
    }) by {
        let d = (2 * k) as u32;
        assert(((((moder & !(3u32 << s)) | (mode << s)) >> d) & 3) == (if d == s {
            mode
        } else {
            (moder >> d) & 3
        })) by (bit_vector)
            requires
                s < 32,
                d < 32,
                s % 2 == 0,
                d % 2 == 0,
                mode < 4,
        ;
    }
}

impl<const BASE: usize, const N: u8> Pin<BASE, N, Input> {
    /// The pin, which is an input after a reset. Nothing is written. Whoever
    /// asks for it must be its only user.
    pub fn new() -> (r: Self) {
        Pin { mode: PhantomData }
    }

    /// Whether the pin reads high; `idr` is the word of the input register.
    pub fn is_high(&self, idr: u32) -> (r: bool)
        requires
            N < 16,
        ensures
            r == bit(idr, N as int),
    {
        (idr >> (N as u32)) & 1 == 1
    }

    /// Whether the pin reads low.
    pub fn is_low(&self, idr: u32) -> (r: bool)
        requires
            N < 16,
        ensures
            r == !bit(idr, N as int),
    {
        !self.is_high(idr)
    }

    /// Make the pin an output, and turn its port's clock on. `ahb1enr` and
    /// `moder` are the words of the clock-gate and mode registers.
    pub fn into_output(self, ahb1enr: u32, moder: u32) -> (r: (
        Pin<BASE, N, Output>,
        RegWrite,
        RegWrite,
    ))
        requires
            exists_pin(BASE, N),
        ensures
            r.1 == RegWrite::of_word(RCC_AHB1ENR, r.1.value),
            forall|i: int|
                0 <= i < 32 ==> #[trigger] bit(r.1.value, i) == (bit(ahb1enr, i) || i == clock_bit(
                    BASE,
                )),
            r.2 == RegWrite::of_word((BASE + MODER) as usize, r.2.value),
            with_mode(moder, r.2.value, N as u32, 1),
    {
        let gate: u32 = ahb1enr_bit(BASE);
        proof {
            bits::lemma_set(ahb1enr, gate);
            lemma_mode_set(moder, N as u32, 1);
        }
        let clock = RegWrite::word(RCC_AHB1ENR, ahb1enr | (1u32 << gate));
        let shift: u32 = 2 * (N as u32);
        let mask: u32 = 3u32 << shift;
        let mode = RegWrite::word(BASE + MODER, (moder & !mask) | (1u32 << shift));
        (Pin { mode: PhantomData }, clock, mode)
    }
}

impl<const BASE: usize, const N: u8> Pin<BASE, N, Output> {
    /// Make the pin an input again. `moder` is the word of the mode register.
    pub fn into_input(self, moder: u32) -> (r: (Pin<BASE, N, Input>, RegWrite))
        requires
            exists_pin(BASE, N),
        ensures
            r.1 == RegWrite::of_word((BASE + MODER) as usize, r.1.value),
            with_mode(moder, r.1.value, N as u32, 0),
    {
        let shift: u32 = 2 * (N as u32);
        let mask: u32 = 3u32 << shift;
        let word: u32 = moder & !mask;
        proof {
            lemma_mode_set(moder, N as u32, 0);
            assert((moder & !mask) | (0u32 << shift) == moder & !mask) by (bit_vector)
                requires
                    shift < 32,
            ;
        }
        (Pin { mode: PhantomData }, RegWrite::word(BASE + MODER, word))
    }

    /// Drive the pin high.
    pub fn set_high(&mut self) -> (r: RegWrite)
        requires
            exists_pin(BASE, N),
        ensures
            r == RegWrite::of_word((BASE + BSRR) as usize, r.value),
            forall|i: int| 0 <= i < 32 ==> #[trigger] bit(r.value, i) == (i == N),
    {
        proof {
            bits::lemma_set(0, N as u32);
            bits::lemma_zero(0);
            assert(0u32 | (1u32 << (N as u32)) == 1u32 << (N as u32)) by (bit_vector);
        }
        RegWrite::word(BASE + BSRR, 1u32 << (N as u32))
    }

    /// Drive the pin low: the reset bits follow the set bits.
    pub fn set_low(&mut self) -> (r: RegWrite)
        requires
            exists_pin(BASE, N),
        ensures
            r == RegWrite::of_word((BASE + BSRR) as usize, r.value),
            forall|i: int| 0 <= i < 32 ==> #[trigger] bit(r.value, i) == (i == N + 16),
    {
        let place: u32 = N as u32 + 16;
        proof {
            bits::lemma_set(0, place);
            bits::lemma_zero(0);
            assert(0u32 | (1u32 << place) == 1u32 << place) by (bit_vector);
        }
        RegWrite::word(BASE + BSRR, 1u32 << place)
    }

    /// Whether the pin is driven high; `odr` is the word of the output
    /// register.
    pub fn is_set_high(&self, odr: u32) -> (r: bool)
        requires
            N < 16,
        ensures
            r == bit(odr, N as int),
    {
        (odr >> (N as u32)) & 1 == 1
    }

    /// Whether the pin is driven low.
    pub fn is_set_low(&self, odr: u32) -> (r: bool)
        requires
            N < 16,
        ensures
            r == !bit(odr, N as int),
    {
        !self.is_set_high(odr)
    }

    /// Drive the pin the other way.
    pub fn toggle(&mut self, odr: u32) -> (r: RegWrite)
        requires
            exists_pin(BASE, N),
        ensures
            r == RegWrite::of_word((BASE + BSRR) as usize, r.value),
            forall|i: int|
                0 <= i < 32 ==> #[trigger] bit(r.value, i) == (i == if bit(odr, N as int) {
                    N + 16
                } else {
                    N as int
                }),
    {
        if self.is_set_high(odr) {
            self.set_low()
        } else {
            self.set_high()
        }
    }
}

/// A pin that is made an output has the clock of its own port on, and its two
/// mode bits are one; made an input again they are zero. No other port's clock
/// and no other pin's mode changes.
pub proof fn law_direction_is_set<const BASE: usize, const N: u8>(
    p: Pin<BASE, N, Input>,
    q: Pin<BASE, N, Output>,
    ahb1enr: u32,
    moder: u32,
    out: (Pin<BASE, N, Output>, RegWrite, RegWrite),
    back: (Pin<BASE, N, Input>, RegWrite),
    gate: int,
    i: int,
    k: u32,
)
    requires
        exists_pin(BASE, N),
        gate * 0x400 <= BASE - 0x4002_0000 < gate * 0x400 + 0x400,
        0 <= i < 32,
        k < 16,
        call_ensures(Pin::<BASE, N, Input>::into_output, (p, ahb1enr, moder), out),
        call_ensures(Pin::<BASE, N, Output>::into_input, (q, moder), back),
    ensures
        out.1.address == 0x4002_3830,
        bit(out.1.value, i) == (i == gate || bit(ahb1enr, i)),
        out.2.address == BASE,
        k == N ==> mode_of(out.2.value, k) == 1 && mode_of(back.1.value, k) == 0,
        k != N ==> mode_of(out.2.value, k) == mode_of(moder, k) && mode_of(back.1.value, k)
            == mode_of(moder, k),
        back.1.address == BASE,
{
}

/// Driving a pin high sets its bit among the lower sixteen, driving it low its
/// bit among the upper sixteen, and driving it the other way does what it is
/// not; reading a pin reads its own bit.
pub proof fn law_pin_is_driven<const BASE: usize, const N: u8>(
    p0: &mut Pin<BASE, N, Output>,
    p1: &mut Pin<BASE, N, Output>,
    p2: &mut Pin<BASE, N, Output>,
    p3: &Pin<BASE, N, Output>,
    p4: &Pin<BASE, N, Input>,
    word: u32,
    high: RegWrite,
    low: RegWrite,
    other: RegWrite,
    on: bool,
    off: bool,
    up: bool,
    down: bool,
    i: int,
)
    requires
        exists_pin(BASE, N),
        0 <= i < 32,
        call_ensures(Pin::<BASE, N, Output>::set_high, (p0,), high),
        call_ensures(Pin::<BASE, N, Output>::set_low, (p1,), low),
        call_ensures(Pin::<BASE, N, Output>::toggle, (p2, word), other),
        call_ensures(Pin::<BASE, N, Output>::is_set_high, (p3, word), on),
        call_ensures(Pin::<BASE, N, Output>::is_set_low, (p3, word), off),
        call_ensures(Pin::<BASE, N, Input>::is_high, (p4, word), up),
        call_ensures(Pin::<BASE, N, Input>::is_low, (p4, word), down),
    ensures
        high.address == BASE + 0x18 && low.address == BASE + 0x18 && other.address == BASE + 0x18,
        bit(high.value, i) <==> i == N,
        bit(low.value, i) <==> i == N + 16,
        on ==> bit(other.value, i) == bit(low.value, i),
        !on ==> bit(other.value, i) == bit(high.value, i),
        on == bit(word, N as int),
        off == !on,
        up == bit(word, N as int),
        down == !up,
{
}

/// The clock gate of a port is its place among the ports.
pub proof fn law_ports_have_their_gates(base: usize, r: u32)
    requires
        base >= 0x4002_0000,
        base < 0x4003_0000,
        call_ensures(ahb1enr_bit, (base,), r),
    ensures
        0x4002_0000 + r * 0x400 <= base < 0x4002_0000 + (r + 1) * 0x400,
{
}

} // verus!
