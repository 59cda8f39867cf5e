//! The PCI bus: configuration space, base address registers, interrupts and drivers.

pub mod attr;
pub mod bar;
pub mod bar_init;
pub mod dev_id;
pub mod device;
pub mod driver;
pub mod ecam;
pub mod header;
pub mod irq;
pub mod pt;
pub mod raw_device;
pub mod root;
pub mod scan;
pub mod subsys;
pub mod types;
