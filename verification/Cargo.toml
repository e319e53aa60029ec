[package]
name = "lightyear"
version = "0.1.0"
edition = "2021"
publish = false

[dependencies]
ringbuffer = "0.15"
chrono = { version = "0.4", default-features = false }
bitcode = "*"
serde = { version = "1", features = ["derive"] }
