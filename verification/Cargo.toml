[package]
name = "config"
version = "0.1.0"
edition = "2021"
publish = false

[dependencies]
regex = "1"
bytes = "1"
thiserror = "2"
syn = { version = "2", features = ["full"] }
quote = "1"
proc-macro2 = "1"
