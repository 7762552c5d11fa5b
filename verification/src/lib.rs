//! Wake-on-LAN host waker.
//!
//! The library turns loosely formatted MAC and IPv4 text into canonical
//! address strings, encodes a MAC address into the fixed 102-byte magic
//! packet, and keeps a registry of named hosts whose wake plans it computes.
//! Putting packets on the wire, persisting the registry and talking to the
//! user are left to the surrounding program.

pub mod cli_args;
pub mod host;
pub mod machines;
pub mod packet;
pub mod parsing;
pub mod random_machine;
pub mod sanitizers;
