[package]
name = "storage_index"
version = "0.1.0"
edition = "2021"
publish = false

[dependencies]
candid = "*"
ic-cdk = "*"
hex = "*"
sha2 = "*"
serde = { version = "*", features = ["derive"] }
rmp-serde = "*"
