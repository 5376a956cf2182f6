//! What the kernel asks of a processor and of a board.
pub mod arch;
pub mod board;
pub mod host;
