[package]
name = "cms_schema"
version = "0.1.0"
edition = "2021"
publish = false

[dependencies]
uuid = { version = "1", features = ["v7"] }
time = "0.3"
url = "2"
serde_json = "1"
rand = "0.8"
rand_hc = "0.3"
