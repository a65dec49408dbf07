[package]
name = "terb"
version = "0.1.0"
edition = "2021"
publish = false

[dependencies]
liquid = "=0.26.11"
pulldown-cmark = { version = "=0.9.6", default-features = false }
toml = "=1.1.8"
kstring = ">=2.0.0, <2.0.3"
