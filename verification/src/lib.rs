//! Linux configuration tools for Ninjutso mice: everything that is decided or
//! computed between the wire and the screen.
//!
//! [`device::Device`] is the entry point. It talks through
//! [`transport::Transport`], so a hidraw node and a scripted stand-in look the
//! same to it; the command line, the window and the battery tray sit on top.

pub mod battery_tray;
pub mod cli;
pub mod device;
pub mod error;
pub mod firmware;
pub mod gui;
pub mod icons;
pub mod protocol;
pub mod text;
pub mod transport;
pub mod tray;

pub use error::Error;
