[package]
name = "drawlink"
version = "0.1.0"
edition = "2021"
publish = false

[dependencies]
rand = "*"
serde = { version = "*", features = ["derive"] }
ron = "*"
chrono = "*"
serialport = { version = "*", default-features = false }
reqwest = { version = "*", default-features = false, features = ["blocking", "json"] }
