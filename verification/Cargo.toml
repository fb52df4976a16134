[package]
name = "berlin_gymnasien"
version = "0.1.0"
edition = "2021"
publish = false

[dependencies]
js-sys = "=0.3.107"
wasm-bindgen = "=0.2.130"
wasm-bindgen-futures = "=0.4.80"
web-sys = { version = "=0.3.107", features = ["Window", "Document", "Element", "Storage", "Location", "History", "HtmlElement", "Event", "EventTarget", "KeyboardEvent", "MouseEvent"] }
serde = { version = "=1.0.229", features = ["derive"] }
serde_json = "=1.0.154"
leptos = { version = "=0.8.23", features = ["csr"] }
leptos_router = "=0.8.17"
leptos-use = { version = "=0.16.3", default-features = false, features = ["use_debounce_fn"] }
leaflet = "=0.5.0"
gloo-net = { version = "=0.6.0", default-features = false, features = ["http", "json"] }
console_error_panic_hook = "=0.1.7"
console_log = "=1.1.0"
log = "=0.4.35"
