[package]
name = "origins"
version = "0.1.0"
edition = "2021"
publish = false

[dependencies]
hdk = "=0.7.1"
holochain_serialized_bytes = "=0.0.57"
serde = { version = "=1.0.228", features = ["derive"] }
