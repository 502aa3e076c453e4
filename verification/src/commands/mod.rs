//! The decisions of the `device` and `server` commands.
pub mod device;
pub mod server;
