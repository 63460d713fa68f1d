[package]
name = "reversi_rules"
version = "0.1.0"
edition = "2021"
publish = false

[dependencies]
hdk = "=0.7.1"
serde = { version = "1", features = ["derive"] }
