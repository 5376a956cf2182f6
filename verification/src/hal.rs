//! Hardware of the LM3S6965.
pub mod gpio;
