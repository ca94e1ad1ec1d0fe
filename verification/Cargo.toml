[package]
name = "conway_duel"
version = "0.1.0"
edition = "2021"
publish = false

[dependencies]
hecs = "*"
glam = "*"
glow = "*"
bytemuck = { version = "*", features = ["derive"] }
serde = { version = "*", features = ["derive"] }
wasm-bindgen = "*"
web-sys = { version = "*", features = ["HtmlCanvasElement", "WebGl2RenderingContext", "Window", "Performance"] }
console_error_panic_hook = "*"
wasm-logger = "*"
