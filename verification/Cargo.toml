[package]
name = "yawnoc"
version = "0.1.0"
edition = "2021"
publish = false

[dependencies]
splr = { version = "=0.17.2", features = ["platform_wasm"] }
serde = { version = "=1.0.229", features = ["derive"] }
serde_json = "=1.0.154"
wasm-bindgen = "=0.2.130"
js-sys = "=0.3.107"
web-sys = { version = "=0.3.107", features = ["Window"] }
wasm-bindgen-futures = "=0.4.80"
console_error_panic_hook = "=0.1.7"
leptos = { version = "=0.6.15", features = ["csr"] }
