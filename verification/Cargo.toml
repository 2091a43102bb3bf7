[package]
name = "zk_inputs"
version = "0.1.0"
edition = "2021"
publish = false

[dependencies]
rand = "=0.10.3"
wasm-bindgen = "=0.2.92"
js-sys = "=0.3.69"

[dev-dependencies]
serde_json = "=1.0.151"
