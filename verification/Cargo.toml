[package]
name = "ftr"
version = "0.1.0"
edition = "2021"
publish = false

[dependencies]
num-bigint = "0.4"
lz4_flex = "0.11"
serde = { version = "1", features = ["derive"] }
