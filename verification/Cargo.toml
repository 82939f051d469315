[package]
name = "skull_alchemy"
version = "0.1.0"
edition = "2021"
publish = false

[dependencies]
base64 = "*"
rand = "0.8"
rand_core = "0.6"
secret-toolkit = { version = "*", features = ["crypto", "permit", "viewing-key", "utils", "snip20", "snip721", "storage", "serialization"] }
secret-cosmwasm-std = "*"
secret-cosmwasm-storage = "*"
serde = { version = "1", features = ["derive"] }
schemars = "0.8"
