[package]
name = "esp32_wasm"
version = "0.1.0"
edition = "2021"
publish = false

[dependencies]
async-std = "=1.13.2"
embedded-hal = "=0.2.7"
log = "=0.4.34"
sensor-scd30 = { version = "=0.3.0", default-features = false }
structopt = "=0.3.26"
