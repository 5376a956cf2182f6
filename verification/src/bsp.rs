//! Boards and their peripherals.
pub mod stm32f401re;
pub mod support;
