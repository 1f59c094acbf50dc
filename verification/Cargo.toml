[package]
name = "entsoe"
version = "0.1.0"
edition = "2021"
publish = false

[dependencies]
rusty-money = "0.4"
chrono = "0.4"
chrono-tz = "*"
reqwest = { version = "*", default-features = false }
