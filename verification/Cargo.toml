[package]
name = "ruos"
version = "0.1.0"
edition = "2021"
publish = false

[dependencies]
x86_64 = { version = "=0.15.5", default-features = false }
smoltcp = { version = "=0.11.0", default-features = false, features = ["alloc", "medium-ethernet", "proto-ipv4", "socket-tcp"] }
ratatui = { version = "=0.29.0", default-features = false }
rayon = "=1.12.0"
spin = "=0.9.9"
wasmi = "=1.1.0"
wasmtime = { version = "=45.0.3", default-features = false, features = ["runtime", "component-model", "cranelift", "std"] }
