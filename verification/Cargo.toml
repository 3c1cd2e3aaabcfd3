[package]
name = "to_and_fro"
version = "0.1.0"
edition = "2021"
publish = false

[dependencies]
heck = "0.5"
syn = "2"
quote = "1"
proc-macro2 = "1"

[dev-dependencies]
serde_json = "1"
percent-encoding = "2"
