[package]
name = "rust_iso20022"
version = "0.1.0"
edition = "2021"
publish = false

[dependencies]
regex = "1"
xml-rs = "0.8"
chrono = "0.4"
rust_decimal = "1"
yaserde = "0.7"
serde = { version = "1", features = ["derive"] }
serde_json = "1"
tokio = { version = "1", features = ["fs"] }
reqwest = { version = "0.12", default-features = false, features = ["rustls-tls"] }
prettytable-rs = "0.10"
wasm-bindgen = "0.2"
js-sys = "0.3"
