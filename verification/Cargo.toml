[package]
name = "kdrivers"
version = "0.1.0"
edition = "2021"
publish = false

[dependencies]
smoltcp = { version = "0.12", default-features = false, features = ["alloc", "medium-ethernet", "medium-ip", "proto-ipv4", "proto-ipv6", "socket-raw", "socket-udp", "socket-tcp"] }
hashbrown = "0.13"
fdt = "0.1"
