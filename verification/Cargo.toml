[package]
name = "equicord_launcher"
version = "0.1.0"
edition = "2021"
publish = false

[dependencies]
tinyjson = "*"
tokio = { version = "*", features = ["rt-multi-thread", "macros"] }
ureq = "*"
