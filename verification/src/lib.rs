//! A small dataflow language runtime.
//!
//! Activities run side by side and meet only at single-assignment variables:
//! a reader of an unbound variable waits, a binder wakes every reader, and a
//! lazy producer starts work when its variable is first demanded. The
//! coordinator in [`scheduler`] owns every table and decides, message by
//! message, what is sent to whom.

pub mod compiler;
pub mod frontend;
pub mod scheduler;
pub mod urls;
