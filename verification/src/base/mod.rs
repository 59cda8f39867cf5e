//! What every device shares.

pub mod device;
pub mod driver;
pub mod handle_table;
pub mod sysfs;
pub mod text;
