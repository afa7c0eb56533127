[package]
name = "raknet_shim"
version = "0.1.0"
edition = "2021"
publish = false

[dependencies]
endio = "*"
serde = { version = "1", features = ["derive"] }
toml = "*"
