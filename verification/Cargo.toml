[package]
name = "perps"
version = "0.1.0"
edition = "2021"
publish = false

[dependencies]
lib-sokoban = "=0.3.3"
bytemuck = { version = "=1.25.2", features = ["derive", "extern_crate_alloc"] }
pinocchio = "=0.8.4"
pinocchio-log = "=0.4.0"
