[package]
name = "doubutsu_nnue"
version = "0.1.0"
edition = "2021"
publish = false

[dependencies]
web-time = "*"
rayon = "*"
rand = "*"
wasm-bindgen = "*"
web-sys = { version = "*", features = ["console"] }
