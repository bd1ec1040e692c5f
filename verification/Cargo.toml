[package]
name = "pluto_field"
version = "0.1.0"
edition = "2021"
publish = false

[dependencies]
num-bigint = "0.4"
p3-field = "0.1"
serde = { version = "1", features = ["derive"] }
