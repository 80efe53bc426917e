[package]
name = "heartsound"
version = "0.1.0"
edition = "2021"
publish = false

[dependencies]
rustfft = "6"
iir_filters = "0.1.3"
serde = { version = "1", features = ["derive"] }
lazy_static = "1"
serialport = { version = "4", default-features = false }
firmata-rs = "0.4.3"
