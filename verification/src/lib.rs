//! Core logic of a terminal assistant that fetches a chat response, extracts
//! fenced code blocks from it, lets the user pick one, and describes how to
//! run it with the right interpreter.
//!
//! Everything here is pure: the HTTP transport, terminal handling and process
//! spawning live outside this crate and exchange plain values with it.

pub mod executor;
pub mod extract;
pub mod prompt;
pub mod registry;
pub mod selector;
pub mod snippet;
