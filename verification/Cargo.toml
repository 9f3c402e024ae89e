[package]
name = "agl"
version = "0.1.0"
edition = "2021"
publish = false

[dependencies]
allsorts = "*"
anyhow = "*"
encoding_rs = "*"
gumdrop = "*"
json = "*"
tracing = "*"
tracing-subscriber = { version = "*", features = ["env-filter"] }
