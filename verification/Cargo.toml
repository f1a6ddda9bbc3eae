[package]
name = "omc"
version = "0.1.0"
edition = "2021"
publish = false

[dependencies]
substring = "1"
rand = "0.8"
wasm-bindgen = "0.2"
