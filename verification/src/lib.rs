//! Rivet: the scheduling, synchronisation and bookkeeping core of a small
//! dual-tier real-time kernel.
//!
//! The kernel keeps its state in plain structures (there are no globals), so
//! every operation names the state that it reads and the state that it
//! changes. What touches hardware is left to the caller: an operation that
//! needs the clock takes the time as an argument, one that would program a
//! register returns the write, and one that would interrupt another hart
//! records the request.
pub mod arch;
pub mod bits;
pub mod bsp;
pub mod config;
pub mod console;
pub mod critical;
pub mod deadlines;
pub mod exec_time;
pub mod executor;
pub mod fault;
pub mod hal;
pub mod irq;
pub mod kernel;
pub mod latency;
pub mod log;
pub mod macros;
pub mod mmio;
pub mod port;
pub mod preempt;
pub mod report;
pub mod sync;
pub mod system;
pub mod task;
pub mod test_support;
pub mod text;
pub mod time;
pub mod timer;
pub mod trace;
pub mod waker;
pub mod watchdog;

pub use system::{
    exit_failure, exit_success, init, run, system_reset, yield_now, System, VERSION,
};
