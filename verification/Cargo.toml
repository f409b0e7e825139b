[package]
name = "matrix_commands"
version = "0.1.0"
edition = "2021"
publish = false

[dependencies]
darling = "=0.20.11"
log = "=0.4.34"
matrix-sdk = { version = "=0.7.1", default-features = false, features = ["markdown", "rustls-tls"] }
proc-macro2 = "=1.0.107"
quote = "=1.0.47"
serde_json = "=1.0.154"
syn = { version = "=2.0.119", features = ["full"] }
