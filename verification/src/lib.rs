//! Verified logic of kernel drivers.

pub mod base;
pub mod error;
pub mod net;
pub mod open_firmware;
pub mod pci;
