//! Core logic of a remote-execution and interactive-shell tunneling client.
//!
//! The client carries a secure-shell session over a message-framed transport
//! (a WebSocket-style connection) riding either a network socket or a
//! hypervisor-to-guest channel.  This crate holds the verified core of that
//! client: the adapter that exposes byte-stream semantics over discrete
//! frames, the interactive session multiplexer's state machine, the
//! control-plane request shapes with their deterministic wire encoding, the
//! transport destination selection, and the bulk-copy accounting.  The
//! surrounding binary performs the actual I/O and feeds events into these
//! verified step functions.

pub mod adapter;
pub mod command;
pub mod copy;
pub mod endpoint;
pub mod errors;
pub mod frame_buffer;
pub mod json;
pub mod session;
