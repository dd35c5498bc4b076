[package]
name = "jvm"
version = "0.1.0"
edition = "2021"
publish = false

[dependencies]
cesu8 = "1.1.0"
tokio = { version = "1", features = ["full"] }
tokio-tungstenite = "*"
futures-util = "*"
serde = { version = "1", features = ["derive"] }
serde_json = "1"
zip = { version = "*", default-features = false, features = ["deflate"] }
libloading = "*"
libffi = "*"
once_cell = "1"
async-trait = "*"
