//! Core logic of a PTY bridge: an ANSI-aware, bounded output buffer, the
//! control-frame codec that multiplexes resize commands into the input
//! channel, connection authorization, and the decision logic of the local
//! interactive loop and the remote bridge server.
//!
//! All I/O (the pseudo-terminal itself, the terminal screen, the network)
//! lives outside this crate; these modules work on plain values and state
//! exactly what they compute.

pub mod ansi;
pub mod auth;
pub mod buffer;
pub mod codec;
pub mod local;
pub mod records;
pub mod server;
pub mod shell;
pub mod text;
