[package]
name = "nyanmd"
version = "0.1.0"
edition = "2021"
publish = false

[dependencies]
pulldown-cmark = { version = "=0.12.2", default-features = false, features = ["html"] }
serde = { version = "=1.0.229", features = ["derive"] }
serde-wasm-bindgen = "=0.6.5"
sycamore = { version = "=0.9.4", features = ["suspense"] }
wasm-bindgen = "=0.2.130"
wasm-bindgen-futures = "0.4"
web-sys = { version = "=0.3.107", features = ["Element", "HtmlElement", "HtmlTextAreaElement"] }
