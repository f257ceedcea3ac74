[package]
name = "cscrypto"
version = "0.1.0"
edition = "2021"
publish = false

[dependencies]
rust-crypto = "0.2.36"
rustc-serialize = "0.3"
rand = "0.8"
num = "0.4"
brotli = "3"
alloc-no-stdlib = "2"
clap = "2"
num_cpus = "1"
jni = "0.19"
wasm-bindgen = "0.2"
