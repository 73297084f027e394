//! Core of a small modal text editor: key sequences are resolved through
//! per-mode key tries into editor actions, and actions mutate an in-memory
//! collection of line-oriented buffers.
//!
//! The crate is pure logic: terminal input, rendering and the byte-level file
//! system calls live in the surrounding application, which feeds key events in
//! and performs the queued file requests that come back out.

pub mod action;
pub mod buffer;
pub mod keys;
pub mod mode;
pub mod point;
pub mod state;
