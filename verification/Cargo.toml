[package]
name = "drend"
version = "0.1.0"
edition = "2021"
publish = false

[dependencies]
bytemuck = { version = "=1.25.2", features = ["derive"] }
futures-channel = "=0.3.34"
image = { version = "=0.25.10", default-features = false, features = ["png", "jpeg"] }
pollster = "=1.0.1"
serde = { version = "=1.0.229", features = ["derive"] }
serde-wasm-bindgen = "=0.6.5"
wasm-bindgen = "=0.2.130"
wasm-bindgen-futures = "=0.4.80"
web-sys = { version = "=0.3.107", features = ["HtmlCanvasElement"] }
wgpu = "=30.0.1"
winit = "=0.30.13"
