//! The local `usbip` tool: parsing its output and deciding what to run.
pub mod command;

pub use command::CommandUsbip;
