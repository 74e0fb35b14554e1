[package]
name = "blockfall"
version = "0.1.0"
edition = "2021"
publish = false

[dependencies]
anyhow = "=1.0.104"
bytemuck = { version = "=1.25.2", features = ["derive"] }
chrono = "=0.4.45"
console_error_panic_hook = "=0.1.7"
console_log = "=1.1.0"
env_logger = "=0.11.11"
image = { version = "=0.25.10", default-features = false, features = ["png"] }
log = "=0.4.34"
pollster = "=0.4.0"
rand = "=0.9.5"
wasm-bindgen = "=0.2.129"
wasm-bindgen-futures = "=0.4.79"
wgpu = "=28.0.0"
wgpu_text = "=28.0.1"
winit = "=0.30.13"
