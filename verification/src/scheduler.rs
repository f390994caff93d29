//! The coordinator, the per-activity state machine and the messages between them.

pub mod laws;
pub mod operation;
pub mod process;
pub mod tables;
pub mod thread;
