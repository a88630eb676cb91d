[package]
name = "simple_anvil"
version = "0.1.0"
edition = "2021"
publish = false

[dependencies]
hematite-nbt = { version = "=0.5.2", features = ["preserve_order"] }
flate2 = "*"
