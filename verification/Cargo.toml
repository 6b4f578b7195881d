[package]
name = "reticulum"
version = "0.1.0"
edition = "2021"
publish = false

[dependencies]
log = "0.4"
rand_core = { version = "0.6", features = ["getrandom"] }
sha2 = "0.10"
tokio = { version = "1", features = ["macros", "net", "rt", "rt-multi-thread", "sync", "time"] }
tokio-util = "0.7"
