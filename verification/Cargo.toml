[package]
name = "tigron_sms"
version = "0.1.0"
edition = "2021"
publish = false

[dependencies]
xml-rs = "*"
reqwest = { version = "*", default-features = false }
tokio = { version = "*", default-features = false, features = ["rt-multi-thread", "macros"] }
