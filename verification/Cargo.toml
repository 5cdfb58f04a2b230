[package]
name = "bist"
version = "0.1.0"
edition = "2021"
publish = false

[dependencies]
anyhow = "1"
futures-util = "0.3"
superconsole = "*"
tokio = { version = "1", default-features = false, features = ["rt"] }
