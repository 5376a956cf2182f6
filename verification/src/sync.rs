//! Synchronisation of cooperative tasks.
pub mod channel;
pub mod once;
pub mod race;
pub mod semaphore;
pub mod signal;

pub use channel::{Channel, Receiver, Sender};
pub use once::Once;
pub use semaphore::Semaphore;
pub use signal::Signal;
