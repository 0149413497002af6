[package]
name = "iguana_rs"
version = "0.1.0"
edition = "2021"
publish = false

[dependencies]
byteorder = "1"
sha2 = "0.10"
secp256k1 = { version = "0.27", features = ["recovery"] }
rusqlite = { version = "0.29", features = ["bundled"] }
nanomsg = "0.7"
jsonrpc-core = "18"
jsonrpc-http-server = "18"
futures = "0.3"
