[package]
name = "cbor_bridge"
version = "0.1.0"
edition = "2021"
publish = false

[dependencies]
ciborium = "0.2"
serde_json = "1"
tiny_http = "0.12"
