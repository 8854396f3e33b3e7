//! The GDB Remote Serial Protocol, server side.
pub mod hex;
pub mod packet;
pub mod bytes;
pub mod command;
pub mod server;
