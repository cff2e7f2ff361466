[package]
name = "fault_injection"
version = "0.1.0"
edition = "2021"
publish = false

[dependencies]
ipnetwork = "*"
