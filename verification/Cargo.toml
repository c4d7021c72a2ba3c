[package]
name = "spo2"
version = "0.1.0"
edition = "2021"
publish = false

[dependencies]
arraydeque = "*"
url = "*"
serde_json = "*"
sled = "*"
tiny_http = "*"
ws = "*"
futures = "*"
futures-timer = "*"
futures-batch = "*"
isahc = "*"
surf = "*"
once_cell = "*"
subslice = "*"
