[package]
name = "ic-rmcp"
version = "0.1.0"
edition = "2021"
publish = false

[dependencies]
candid = "=0.10.39"
hex = "=0.4.3"
ic-cdk = "=0.18.7"
ic-cdk-timers = "=0.12.3"
num-bigint = "=0.4.8"
rmcp = "0.2"
serde = { version = "1", features = ["derive"] }
sha2 = "=0.10.9"
