//! Verified core of a process-memory inspection tool.
//!
//! The library models one attached target process: the parsed listing of its
//! mapped memory regions, a positioned byte channel into its address space,
//! and a scan engine that searches for byte patterns and narrows the result
//! set with successive filter passes.  All parsing, matching, comparison and
//! narrowing logic is verified here; opening the real `/proc` files and the
//! terminal front end live outside the library and hand it plain values.

pub mod channel;
pub mod codec;
pub mod environ;
pub mod hex;
pub mod menu;
pub mod process;
pub mod region;
pub mod search;
pub mod system;
pub mod tokens;
pub mod types;
