//! Interrupt numbers of the board.
use vstd::prelude::*;

verus! {

/// The console's UART.
pub const USART2: u32 = 38;

/// Events of the I2C controller.
pub const I2C1_EV: u32 = 31;

/// Errors of the I2C controller.
pub const I2C1_ER: u32 = 32;

} // verus!
