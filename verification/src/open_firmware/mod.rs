//! What firmware says of the machine, in a device tree.

pub mod blob;
pub mod device_node;
pub mod fdt;
