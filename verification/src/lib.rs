//! An addressable tree of devices: an arena that hands out stable addresses,
//! the parent/child topology over it, hierarchical device paths, and a small
//! line-buffered console.

pub mod address;
pub mod console;
pub mod device;
pub mod history;
pub mod message;
pub mod network;
pub mod system;
mod text;
pub mod topology;

pub use console::Packet;
