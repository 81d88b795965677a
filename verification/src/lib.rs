//! A host-monitoring agent's decisions, stated and proved.
//!
//! The agent samples the machine, writes one line of JSON per cycle to a
//! monitoring server over TCP, and reconnects when the line cannot be sent.
//! This crate holds everything the agent decides or computes: the handshake,
//! the wire format, the arithmetic on the samples, and the loop that strings
//! them together. Sockets, clocks and the operating system stay with the
//! caller, which performs each action the library names and reports how it
//! went.
pub mod config;
pub mod error;
pub mod handshake;
pub mod numeral;
pub mod reporting;
pub mod snapshot;
pub mod system_info;
pub mod text;
