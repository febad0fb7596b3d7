[package]
name = "celestial_hub_astrolabe"
version = "0.1.0"
edition = "2021"
publish = false

[dependencies]
ariadne = "0.4"
color-eyre = "0.6"
lalrpop-util = "0.20"
serde = { version = "1", features = ["derive"] }
