[package]
name = "carpet_core"
version = "0.1.0"
edition = "2021"
publish = false

[dependencies]
sha2 = "*"
aes-gcm = "*"
serde = { version = "*", features = ["derive"] }
tokio = { version = "*", features = ["rt", "net", "io-util", "time", "sync", "macros"] }
