[package]
name = "polyvolve"
version = "0.1.0"
edition = "2021"
publish = false

[dependencies]
rand = "*"
image = "*"
wasm-bindgen = "*"
console_error_panic_hook = "*"
