[package]
name = "torch_lights"
version = "0.1.0"
edition = "2021"
publish = false

[dependencies]
image = "*"
zip = "*"
serde = { version = "*", features = ["derive"] }
serde_json = "*"
artnet_protocol = "*"
