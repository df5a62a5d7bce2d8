[package]
name = "flow_node"
version = "0.1.0"
edition = "2021"
publish = false

[dependencies]
sha2 = "=0.10.9"
cid = "=0.11.3"
multihash = "=0.19.5"
fastcdc = "=3.2.1"
serde = { version = "=1.0.229", features = ["derive"] }
serde_json = "=1.0.154"
serde_ipld_dagcbor = "=0.6.4"
hex = "=0.4.3"
chrono = "=0.4.45"
jsonwebtoken = "=9.3.1"
uuid = { version = "1", features = ["v4", "serde"] }
