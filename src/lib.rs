//! A Wayland wire-protocol runtime: framing of messages received over a local stream
//! socket, an object registry keyed by object ID, and dispatch of each message to the
//! handler registered under its object ID.

pub mod bundle;
pub mod connection;
pub mod cursor;
pub mod defs;
pub mod object;
pub mod sockets;
