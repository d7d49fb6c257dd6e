[package]
name = "protobuf_desc_demo"
version = "0.1.0"
edition = "2021"
publish = false

[dependencies]
prost = "*"
prost-types = "*"
prost-reflect = { version = "*", features = ["serde"] }
serde_json = "*"
vrl = { version = "*", default-features = false, features = ["value"] }
