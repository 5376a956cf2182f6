//! Register writes, as values.
//!
//! Code that configures hardware computes what to write where; whoever owns
//! the bus performs the writes in order.
use vstd::prelude::*;

verus! {

/// How much a write transfers.
#[derive(Debug, Clone, Copy, PartialEq, Eq, Structural)]
pub enum Width {
    /// One byte.
    Byte,
    /// One word of 32 bits.
    Word,
}

/// One write to a register.
#[derive(Debug, Clone, Copy, PartialEq, Eq, Structural)]
pub struct RegWrite {
    /// Address of the register.
    pub address: usize,
    /// What is written; a byte write takes the lowest byte.
    pub value: u32,
    /// How much is written.
    pub width: Width,
}

impl RegWrite {
    /// A write of a word.
    pub open spec fn of_word(address: usize, value: u32) -> RegWrite {
        RegWrite { address, value, width: Width::Word }
    }

    /// A write of a byte.
    pub open spec fn of_byte(address: usize, value: u8) -> RegWrite {
        RegWrite { address, value: value as u32, width: Width::Byte }
    }

    /// Write a word.
    pub fn word(address: usize, value: u32) -> (r: Self)
        ensures
            r == Self::of_word(address, value),
    {
        RegWrite { address, value, width: Width::Word }
    }

    /// Write a byte.
    pub fn byte(address: usize, value: u8) -> (r: Self)
        ensures
            r == Self::of_byte(address, value),
    {
        RegWrite { address, value: value as u32, width: Width::Byte }
    }
}

/// The low word of a count.
pub open spec fn low_word(n: int) -> u32 {
    (n % 0x1_0000_0000) as u32
}

/// The low word of an address.
pub fn word_of(n: usize) -> (r: u32)
    ensures
        r == low_word(n as int),
{
    (n as u64 % 0x1_0000_0000) as u32
}

/// A write says what is written where, and how much of it.
pub proof fn law_write_is_as_asked(
    address: usize,
    value: u32,
    small: u8,
    n: usize,
    w: RegWrite,
    b: RegWrite,
    low: u32,
)
    requires
        call_ensures(RegWrite::word, (address, value), w),
        call_ensures(RegWrite::byte, (address, small), b),
        call_ensures(word_of, (n,), low),
    ensures
        w.address == address && w.value == value && w.width == Width::Word,
        b.address == address && b.value == small && b.width == Width::Byte,
        low == n as int % 0x1_0000_0000,
{
}

} // verus!
