//! Network drivers: queues, routing, polling and device models.

pub mod addr;
pub mod bridge;
pub mod deferred_index;
pub mod deferred_queue;
pub mod e1000e;
pub mod e1000e_driver;
pub mod egress;
pub mod iface;
pub mod iface_common;
pub mod iface_poll;
pub mod irq_handle;
pub mod local_output;
pub mod local_queue;
pub mod loopback;
pub mod mac_table;
mod memory;
pub mod napi;
pub mod output_drain;
pub mod phy;
pub mod router;
pub mod sysfs;
pub mod tcp_output;
pub mod tx_admission;
pub mod types;
pub mod veth;
pub mod virtio_net;
pub mod wire;
