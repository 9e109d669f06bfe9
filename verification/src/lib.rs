//! Bookkeeping of a TCP greeting server that hands its open connections over
//! to sibling servers (through Unix sockets) when it shuts down.

pub mod client;
pub mod decimal;
pub mod discovery;
pub mod greeting;
pub mod handoff;
pub mod naming;
pub mod registry;
pub mod server;
pub mod text;
