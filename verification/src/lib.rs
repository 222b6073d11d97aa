//! Core logic of a desktop auto-clicker: a user-configured input action is
//! injected at a fixed interval, toggled by a global hotkey, with the
//! configuration persisted to a small text file.
//!
//! The platform glue (GUI, OS-wide key hook, input injection, file I/O) lives
//! outside this crate; everything here is pure logic with proved contracts.

pub mod app;
pub mod codec;
pub mod hotkey;
pub mod settings;
pub mod worker;
