[package]
name = "rusttorch"
version = "0.1.0"
edition = "2021"
publish = false

[dependencies]
prost = "*"
safetensors = "0.4"
serde = { version = "1", features = ["derive"] }
serde_json = "1"
tch = "*"
thiserror = "*"
zip = { version = "0.6", default-features = false, features = ["deflate"] }
