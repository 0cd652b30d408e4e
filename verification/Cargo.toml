[package]
name = "articy_dialogue"
version = "0.1.0"
edition = "2021"
publish = false

[dependencies]
gdnative = "0.11"
serde_json = "1"
