[package]
name = "ghost_agent"
version = "0.1.0"
edition = "2021"
publish = false

[dependencies]
sha2 = "*"
hex = "*"
uuid = { version = "*", features = ["v4"] }
candid = "*"
serde = { version = "*", features = ["derive"] }
serde_json = "*"
ic-cdk = "*"
ic-cdk-macros = "*"
ic-stable-structures = "*"
