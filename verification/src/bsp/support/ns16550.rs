//! A UART of the NS16550 family, written without looking at its state.
use crate::mmio::RegWrite;
use vstd::prelude::*;

verus! {

/// Send a byte.
pub fn write_byte(base: usize, byte: u8) -> (r: RegWrite)
    ensures
        r == RegWrite::of_byte(base, byte),
{
    RegWrite::byte(base, byte)
}

/// Send bytes.
pub fn write_bytes(base: usize, bytes: &[u8]) -> (r: Vec<RegWrite>)
    ensures
        r@ == Seq::new(bytes@.len(), |i: int| RegWrite::of_byte(base, bytes@[i])),
{
    let mut writes: Vec<RegWrite> = Vec::new();
    let n: usize = bytes.len();
    let mut i: usize = 0;
    while i < n
        invariant
            i <= n,
            n == bytes@.len(),
            writes@ == Seq::new(i as nat, |j: int| RegWrite::of_byte(base, bytes@[j])),
        decreases n - i,
    {
        writes.push(write_byte(base, bytes[i]));
        assert(writes@ =~= Seq::new((i + 1) as nat, |j: int| RegWrite::of_byte(base, bytes@[j])));
        i = i + 1;
    }
    writes
}

/// Every byte is sent by one write, in order.
pub proof fn law_each_byte_is_written(base: usize, bytes: &[u8], r: Vec<RegWrite>, i: int)
    requires
        call_ensures(write_bytes, (base, bytes), r),
    ensures
        r@.len() == bytes@.len(),
        0 <= i < bytes@.len() ==> r@[i].address == base && r@[i].value == bytes@[i]
            && r@[i].width is Byte,
{
}

} // verus!
