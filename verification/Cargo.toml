[package]
name = "etopa"
version = "0.1.0"
edition = "2021"
publish = false

[dependencies]
sha3 = "=0.10.9"
aes-gcm = "=0.11.1"
rust-argon2 = "=3.0.0"
rand = "=0.9.5"
base32 = "=0.4.0"
ring = "=0.17.14"
kern = "=1.8.3"
json = "=0.12.4"
jni = "=0.22.4"
wasm-bindgen = "=0.2.130"
serde-wasm-bindgen = "=0.6.5"
serde = { version = "=1.0.229", features = ["derive"] }
console_error_panic_hook = "=0.1.7"
hex = "=0.4.3"

