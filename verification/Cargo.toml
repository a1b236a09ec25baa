[package]
name = "lora_gateway"
version = "0.1.0"
edition = "2021"
publish = false

[dependencies]
crc = "3"
serde = { version = "1", features = ["derive"] }
serde_json = "1"
toml = "*"
anyhow = "1"
rumqttc = "*"

[dev-dependencies]
postcard = { version = "1", features = ["alloc"] }
