[package]
name = "sharmat"
version = "0.1.0"
edition = "2021"
publish = false

[dependencies]
iced = { version = "0.1", features = ["svg"] }
iced_native = "0.2"
iced_wgpu = { version = "0.2", features = ["svg"] }
