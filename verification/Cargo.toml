[package]
name = "client"
version = "0.1.0"
edition = "2021"
publish = false

[dependencies]
chrono = { version = "=0.4.45", features = ["serde"] }
convert_case = "=0.6.0"
urlencoding = "=2.1.3"
serde = { version = "=1.0.229", features = ["derive"] }
serde_json = "=1.0.154"
reqwest = { version = "=0.12.28", default-features = false, features = ["json"] }
futures = "=0.3.34"
gloo-storage = "=0.3.0"
log = "=0.4.34"
openai_dive = "=0.6.6"
charming = { version = "0.4", default-features = false, features = ["wasm"] }
leptos = { version = "=0.6.15", features = ["csr"] }
leptos_icons = "0.3"
icondata = "=0.7.0"
wasm-bindgen = "=0.2.129"
web-sys = { version = "=0.3.106", features = ["Window", "Document", "Element", "ResizeObserver", "ResizeObserverEntry", "DomRectReadOnly"] }
js-sys = "=0.3.106"
serde-wasm-bindgen = "=0.6.5"
console_error_panic_hook = "=0.1.7"
console_log = "=1.1.0"

[dev-dependencies]
regex = "=1.13.1"
