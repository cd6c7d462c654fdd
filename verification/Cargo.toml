[package]
name = "uav_aggregator"
version = "0.1.0"
edition = "2021"
publish = false

[dependencies]
sha1 = "*"
hex = "*"
rand = "*"
zmq = { version = "*", features = ["vendored"] }
ctrlc = "*"
merkle_hash = "*"
serde_yaml = "*"
xmltree = "*"
device_query = "*"

[dev-dependencies]
regex = "*"
serde_json = "*"
