[package]
name = "salus"
version = "0.1.0"
edition = "2021"

[dependencies]
async-trait = "0.1"
http = "0.2"
hyper = { version = "0.14", features = ["server", "http1", "tcp"] }
proc-macro2 = "1"
quote = "1"
serde = "1"
serde_json = "1"
syn = { version = "2", features = ["full"] }
