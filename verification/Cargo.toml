[package]
name = "asset_baker"
version = "0.1.0"
edition = "2021"
publish = false

[dependencies]
tiled = "=0.16.0"
serde_json = "=1.0.154"
quote = "=1.0.47"
proc-macro2 = "=1.0.107"
agb = "=0.21.3"
agb_tracker = "=0.21.3"
