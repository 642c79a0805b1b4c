[package]
name = "serial_bridge"
version = "0.1.0"
edition = "2021"
publish = false

[dependencies]
rand = "0.8"
sha2 = "0.10"
hex = "0.4"
tokio = { version = "1", features = ["rt-multi-thread", "macros", "net", "io-util", "sync", "time"] }
serialport = { version = "4", default-features = false }
dotenv = "0.15"
lazy_static = "1"
