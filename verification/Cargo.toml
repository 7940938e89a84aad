[package]
name = "near_store"
version = "0.1.0"
edition = "2021"
publish = false

[dependencies]
borsh = "0.9"
serde_json = "1"
