[package]
name = "mcproto"
version = "0.1.0"
edition = "2021"
publish = false

[dependencies]
byteorder = "1"
flate2 = "1"
openssl = "0.10"
serde = { version = "1", features = ["derive"] }
