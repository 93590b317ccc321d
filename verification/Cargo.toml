[package]
name = "citadel_addons"
version = "0.1.0"
edition = "2021"
publish = false

[dependencies]
keyvalues-serde = "0.2"
serde = { version = "1", features = ["derive"] }
serde_json = "1"
steamlocate = "1"
