//! Capacities of the kernel's fixed tables.
use vstd::prelude::*;

verus! {

/// Preemptive task slots.
pub const MAX_PTASKS: usize = 16;

/// Mutexes that one preemptive task may hold at a time.
pub const MAX_HELD: usize = 4;

/// Outstanding sleeps of the cooperative tier.
pub const MAX_TIMERS: usize = 16;

/// Cooperative tasks per priority level; at most the width of a queue word.
pub const MAX_TASKS: usize = 16;

/// Interrupt lines in the handler table.
pub const MAX_IRQS: usize = 64;

/// Harts that share the run queue.
pub const MAX_HARTS: usize = 2;

/// Priority levels; one bit of a bitmap word each.
pub const PRIORITY_LEVELS: usize = 32;

/// Frequency of the periodic tick.
pub const TICK_HZ: u32 = 1000;

} // verus!
