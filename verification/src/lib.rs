//! A loopback print bridge: a web page speaks a small JSON protocol over a
//! WebSocket to enumerate the machine's printers and submit label print jobs.
//!
//! This crate holds the verified core of that bridge: the message codec
//! (`codec`), the per-connection session state machine and dispatcher
//! (`session`), and the printer-facing helpers (`printer`). The network loop
//! and the OS-level print submission live outside the crate and drive these
//! functions with plain values.

pub mod bytes;
pub mod codec;
pub mod printer;
pub mod protocol;
pub mod session;
