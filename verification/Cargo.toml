[package]
name = "xlsx_handlebars"
version = "0.1.0"
edition = "2021"
publish = false

[dependencies]
zip = "*"
base64 = "*"
uuid = { version = "*", features = ["v4"] }
handlebars = "*"
serde_json = "*"
thiserror = "*"
wasm-bindgen = "*"
js-sys = "*"
console_error_panic_hook = "*"
