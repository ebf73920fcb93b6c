[package]
name = "io_tubes"
version = "0.1.0"
edition = "2021"
publish = false

[dependencies]
async-trait = "0.1"
log = "0.4"
pretty-hex = "*"
tokio = { version = "1", default-features = false, features = ["io-util", "io-std", "net", "process", "time", "rt"] }
