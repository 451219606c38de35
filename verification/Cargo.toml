[package]
name = "broker"
version = "0.1.0"
edition = "2021"
publish = false

[dependencies]
sled = "0.34"
bcrypt = "*"
jsonwebtoken = "=9.3.1"
base64 = "0.13"
uuid = { version = "1", features = ["v4"] }
Inflector = "0.11"
serde = { version = "1", features = ["derive"] }
serde_json = "1"
serde_derive = "1"
warp = "0.3"
tokio = { version = "1", features = ["full"] }
tokio-stream = "0.1"
bus = "*"
crossbeam = "*"
lazy_static = "*"
go-flag = "*"
envy = "*"
pretty_env_logger = "*"
broker-ntp = "*"
