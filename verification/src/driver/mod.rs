//! The physical receiver: devices, their opening and their stream of blocks.

pub mod monitor;
pub mod opening;
pub mod usb;
