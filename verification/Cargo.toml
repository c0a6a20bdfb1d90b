[package]
name = "mc_schems"
version = "0.1.0"
edition = "2021"
publish = false

[dependencies]
flate2 = "=1.1.10"
hematite-nbt = { version = "=0.5.2", features = ["preserve_order"] }
thiserror = "=1.0.69"
