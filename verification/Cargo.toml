[package]
name = "swagos"
version = "0.1.0"
edition = "2021"
publish = false

[dependencies]
lazy_static = { version = "=1.5.1", features = ["spin_no_std"] }
spin = "=0.9.9"
uart_16550 = "=0.3.2"
volatile = "=0.2.7"
x86_64 = { version = "=0.14.13", default-features = false, features = ["instructions"] }
