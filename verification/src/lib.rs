//! Host-side library for supervising a long-lived child worker process.
//!
//! The host spawns the child with piped stdio, discovers the TCP port the
//! child binds, exchanges newline-delimited JSON-RPC frames with it in both
//! directions, and exposes a small authenticated local HTTP surface that
//! proxies administrative calls into the child.
//!
//! This crate holds the verified core: the line classifier, the frame codec,
//! the supervisor state machine, the restart backoff, the id-correlation
//! table of the RPC broker, the host-side handler decisions, the token and
//! authentication rules, and the static-path safety rules. The unverified
//! shell around it (process spawning, sockets, timers, dialogs) lives in a
//! separate binary crate that drives these functions.

pub mod backoff;
pub mod broker;
pub mod classify;
pub mod frames;
pub mod handlers;
pub mod paths;
pub mod permissions;
pub mod portline;
pub mod server;
pub mod strutil;
pub mod supervisor;
pub mod text;

pub use backoff::calculate_backoff_ms;
pub use backoff::restart_backoff;
pub use broker::RpcBroker;
pub use classify::{classify_line, LineEvent};
pub use frames::RpcFrame;
pub use portline::extract_port_check;
pub use portline::extract_port_from_line;
pub use supervisor::{SidecarConfig, SidecarError, SidecarProcess, SidecarState, SidecarStatus};
