[package]
name = "zokrates_sprout"
version = "0.1.0"
edition = "2021"
publish = false

[dependencies]
hex = "0.4.3"
flate2 = "1.1.10"
alloy-primitives = "1.7.3"
alloy-dyn-abi = "1.7.3"
alloy-json-abi = "1.7.3"
serde_json = "1.0.154"
rand = "0.8.8"
log = "0.4.35"
env_logger = "0.11.11"
lazy_static = "1.5.1"
tokio = { version = "1.54.1", features = ["full"] }
tonic = "0.12.3"
tonic-reflection = "0.12.3"
prost = "0.13.5"
