//! Remote usbip device management: parsing of `usbip` output, target and
//! server configuration, and the decisions of the command line and the TUI.
pub mod address;
pub mod cli;
pub mod client;
pub mod commands;
pub mod config;
pub mod device;
pub mod helpers;
pub mod text;
pub mod usbip;
pub mod tui;
