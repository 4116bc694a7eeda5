[package]
name = "ticklog"
version = "0.1.0"
edition = "2021"
publish = false

[dependencies]
core_affinity = "=0.8.3"
crossbeam-utils = "=0.8.23"
ringbuf = "=0.6.0"
ringbuffer = "=0.16.0"
rtrb = "=0.4.1"
spin = { version = "=0.12.3", features = ["std"] }
triple_buffer = "=9.0.0"
