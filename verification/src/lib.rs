//! A line-oriented chat broker: a connection registry with named rooms,
//! a wire codec for the TCP transport, a command grammar, and the
//! per-connection session state machines for both transports.
//!
//! The registry is the single owner of connection and room state; every
//! mutating operation is an atomic state transition that also returns the
//! outbound deliveries it caused, so the transport layer only performs
//! the writes.

pub mod alist;
pub mod codec;
pub mod commands;
pub mod contracts;
pub mod external;
pub mod response;
pub mod room;
pub mod server;
pub mod session;
