[package]
name = "re_bridge"
version = "0.1.0"
edition = "2021"
publish = false

[dependencies]
regex = "=1.7.3"
regex-syntax = "=0.6.29"
rustc_lexer = "0.1"
serde = { version = "1", features = ["derive"] }
serde-wasm-bindgen = "*"
wasm-bindgen = "0.2"
console_error_panic_hook = "0.1"
