[package]
name = "otk"
version = "0.1.0"
edition = "2021"
publish = false

[dependencies]
minicbor = { version = "*", features = ["alloc", "std", "derive"] }
cobs = "*"
crc32fast = "*"
rustls-pemfile = "2"
rustls = "0.23"
tokio-rustls = "0.26"
tokio = { version = "1", features = ["full"] }
async-trait = "0.1"
rcgen = "0.13"
time = "0.3"
thiserror = "*"
serde = { version = "1", features = ["derive"] }
