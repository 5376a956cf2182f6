//! Processor architectures.
pub mod cortex_m;
pub mod frame;
pub mod riscv;
