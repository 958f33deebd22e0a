[package]
name = "ld2410s"
version = "0.1.0"
edition = "2021"

[dependencies]
heapless = "0.8"
serialport = { version = "4", default-features = false }
