[package]
name = "imxrt-enet-qos"
version = "0.1.0"
edition = "2021"
publish = false

[dependencies]
imxrt-ral = { version = "*", features = ["imxrt1176_cm7"] }
smoltcp = { version = "0.12", default-features = false, features = ["medium-ethernet", "proto-ipv4", "socket-udp"] }
