[package]
name = "canister_logs"
version = "0.1.0"
edition = "2021"
publish = false

[dependencies]
ic-canister-log = "*"
ic-cdk = "*"
serde = { version = "1", features = ["derive"] }
serde_json = "1"
