//! Pins of the LM3S6965, with their direction in their type.
//!
//! A pin's methods take the register words that they depend on and return the
//! writes to make.
use crate::bits::{self, bit};
use crate::mmio::RegWrite;
use core::marker::PhantomData;
use vstd::arithmetic::power2::{lemma2_to64, pow2};
use vstd::prelude::*;

verus! {

/// Port A.
pub const PORT_A: usize = 0x4000_4000;

/// Port B.
pub const PORT_B: usize = 0x4000_5000;

/// Port C.
pub const PORT_C: usize = 0x4000_6000;

/// Port D.
pub const PORT_D: usize = 0x4000_7000;

/// Port E.
pub const PORT_E: usize = 0x4002_4000;

/// Port F.
pub const PORT_F: usize = 0x4002_5000;

/// Port G.
pub const PORT_G: usize = 0x4002_6000;

/// Direction register.
pub const GPIODIR: usize = 0x400;

/// Digital-enable register.
pub const GPIODEN: usize = 0x51C;

/// The pin is an input.
pub struct Input;

/// The pin is an output.
pub struct Output;

/// Pin `N` of the port at `BASE`.
pub struct Pin<const BASE: usize, const N: u8, MODE> {
    mode: PhantomData<MODE>,
}

/// `post` is `pre` with bit `n` as given.
pub open spec fn with_bit(pre: u32, post: u32, n: int, on: bool) -> bool {
    forall|i: int| 0 <= i < 32 ==> #[trigger] bit(post, i) == (if i == n {
        on
    } else {
        bit(pre, i)
    })
}

/// There is such a pin, and the port's registers can be addressed.
pub open spec fn exists_pin(base: usize, n: u8) -> bool {
    n < 8 && base + 0x1000 <= usize::MAX
}

impl<const BASE: usize, const N: u8> Pin<BASE, N, Input> {
    /// The pin, which is an input after a reset. Nothing is written. Whoever
    /// asks for it must be its only user.
    pub fn new() -> (r: Self) {
        Pin { mode: PhantomData }
    }

    /// Make the pin a digital output. `dir` and `den` are the words of the
    /// direction and digital-enable registers.
    pub fn into_output(self, dir: u32, den: u32) -> (r: (Pin<BASE, N, Output>, [RegWrite; 2]))
        requires
            exists_pin(BASE, N),
        ensures
            exists|a: u32, b: u32|
                with_bit(dir, a, N as int, true) && with_bit(den, b, N as int, true) && r.1@ == seq![
                    #[trigger] RegWrite::of_word((BASE + GPIODIR) as usize, a),
                    #[trigger] RegWrite::of_word((BASE + GPIODEN) as usize, b),
                ],
    {
        let mask: u32 = 1u32 << (N as u32);
        proof {
            bits::lemma_set(dir, N as u32);
            bits::lemma_set(den, N as u32);
        }
        let writes = [
            RegWrite::word(BASE + GPIODIR, dir | mask),
            RegWrite::word(BASE + GPIODEN, den | mask),
        ];
        assert(writes@ =~= seq![
            RegWrite::of_word((BASE + GPIODIR) as usize, dir | mask),
            RegWrite::of_word((BASE + GPIODEN) as usize, den | mask),
        ]);
        (Pin { mode: PhantomData }, writes)
    }
}

/// Address of the data register for pin `n` alone: the address lines select
/// the pins that an access affects.
pub open spec fn data_address(base: usize, n: u8) -> int {
    base + 4 * pow2(n as nat)
}

impl<const BASE: usize, const N: u8> Pin<BASE, N, Output> {
    /// Make the pin an input again. `dir` is the word of the direction
    /// register.
    pub fn into_input(self, dir: u32) -> (r: (Pin<BASE, N, Input>, RegWrite))
        requires
            exists_pin(BASE, N),
        ensures
            r.1 == RegWrite::of_word((BASE + GPIODIR) as usize, r.1.value),
            with_bit(dir, r.1.value, N as int, false),
    {
        proof {
            bits::lemma_clear(dir, N as u32);
        }
        let mask: u32 = 1u32 << (N as u32);
        (Pin { mode: PhantomData }, RegWrite::word(BASE + GPIODIR, dir & !mask))
    }

    /// Address of the pin's data register.
    pub fn data_reg(&self) -> (r: usize)
        requires
            exists_pin(BASE, N),
        ensures
            r == data_address(BASE, N),
    {
        proof {
            lemma2_to64();
        }
        let offset: usize = match N {
            0 => 0x004,
            1 => 0x008,
            2 => 0x010,
            3 => 0x020,
            4 => 0x040,
            5 => 0x080,
            6 => 0x100,
            _ => 0x200,
        };
        BASE + offset
    }

    /// Drive the pin high.
    pub fn set_high(&mut self) -> (r: RegWrite)
        requires
            exists_pin(BASE, N),
        ensures
            r == RegWrite::of_word(data_address(BASE, N) as usize, 0xFFFF_FFFF),
    {
        RegWrite::word(self.data_reg(), 0xFFFF_FFFF)
    }

    /// Drive the pin low.
    pub fn set_low(&mut self) -> (r: RegWrite)
        requires
            exists_pin(BASE, N),
        ensures
            r == RegWrite::of_word(data_address(BASE, N) as usize, 0),
    {
        RegWrite::word(self.data_reg(), 0)
    }

    /// Whether the pin is driven high; `data` is the word of its data
    /// register.
    pub fn is_set_high(&self, data: u32) -> (r: bool)
        ensures
            r == (data != 0),
    {
        data != 0
    }

    /// Drive the pin the other way.
    pub fn toggle(&mut self, data: u32) -> (r: RegWrite)
        requires
            exists_pin(BASE, N),
        ensures
            r == RegWrite::of_word(
                data_address(BASE, N) as usize,
                if data != 0 {
                    0
                } else {
                    0xFFFF_FFFF
                },
            ),
    {
        if self.is_set_high(data) {
            self.set_low()
        } else {
            self.set_high()
        }
    }
}

/// Two pins of a port never share a data register, so driving one leaves the
/// other alone.
pub proof fn law_pins_are_independent(base: usize, a: u8, b: u8)
    requires
        a < 8,
        b < 8,
        a != b,
    ensures
        data_address(base, a) != data_address(base, b),
{
    lemma2_to64();
}

/// The data register of pin `n` lies at the `2^n`-th word of its port, and a
/// write of all ones there drives it high, of zero low.
pub proof fn law_pin_is_driven<const BASE: usize, const N: u8>(
    p0: &mut Pin<BASE, N, Output>,
    p1: &mut Pin<BASE, N, Output>,
    p2: &mut Pin<BASE, N, Output>,
    p3: &Pin<BASE, N, Output>,
    data: u32,
    reg: usize,
    high: RegWrite,
    low: RegWrite,
    other: RegWrite,
    was: bool,
    is: bool,
)
    requires
        exists_pin(BASE, N),
        call_ensures(Pin::<BASE, N, Output>::data_reg, (p3,), reg),
        call_ensures(Pin::<BASE, N, Output>::set_high, (p0,), high),
        call_ensures(Pin::<BASE, N, Output>::set_low, (p1,), low),
        call_ensures(Pin::<BASE, N, Output>::is_set_high, (p3, data), was),
        call_ensures(Pin::<BASE, N, Output>::toggle, (p2, data), other),
        call_ensures(Pin::<BASE, N, Output>::is_set_high, (p3, other.value), is),
    ensures
        reg == BASE + 4 * pow2(N as nat),
        high.address == reg && high.value == 0xFFFF_FFFF,
        low.address == reg && low.value == 0,
        other.address == reg,
        is == !was,
{
    lemma2_to64();
    assert(N == 0 || N == 1 || N == 2 || N == 3 || N == 4 || N == 5 || N == 6 || N == 7);
}

/// Making a pin an output sets its bit in the direction and the digital-enable
/// register and no other bit; making it an input clears its direction bit and
/// no other.
pub proof fn law_direction_is_set<const BASE: usize, const N: u8>(
    p: Pin<BASE, N, Input>,
    q: Pin<BASE, N, Output>,
    dir: u32,
    den: u32,
    out: (Pin<BASE, N, Output>, [RegWrite; 2]),
    back: (Pin<BASE, N, Input>, RegWrite),
    i: int,
)
    requires
        exists_pin(BASE, N),
        0 <= i < 32,
        call_ensures(Pin::<BASE, N, Input>::into_output, (p, dir, den), out),
        call_ensures(Pin::<BASE, N, Output>::into_input, (q, dir), back),
    ensures
        out.1[0].address == BASE + 0x400,
        out.1[1].address == BASE + 0x51C,
        bit(out.1[0].value, i) == (i == N || bit(dir, i)),
        bit(out.1[1].value, i) == (i == N || bit(den, i)),
        back.1.address == BASE + 0x400,
        bit(back.1.value, i) == (i != N && bit(dir, i)),
{
    let w = out.1;
    assert(w@[0] == w[0] && w@[1] == w[1]);
}

} // verus!
