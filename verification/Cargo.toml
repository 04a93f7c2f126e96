[package]
name = "editor"
version = "0.1.0"
edition = "2021"
publish = false

[dependencies]
serde = { version = "1", features = ["derive"] }
serde_json = "1"
chrono = { version = "0.4", default-features = false, features = ["alloc"] }
unicode-width = "*"
ratatui-core = "*"
ratatui-widgets = "*"
ratatui-crossterm = "*"
crossterm = "*"
reqwest = { version = "*", default-features = false, features = ["json"] }
wasm-bindgen = "*"
wasm-bindgen-futures = "*"
console_error_panic_hook = "*"
