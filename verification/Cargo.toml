[package]
name = "upscale"
version = "0.1.0"
edition = "2021"
publish = false

[dependencies]
anyhow = "1"
candle-core = "0.9"
candle-nn = "0.9"
clap = { version = "4", default-features = false, features = ["std", "derive", "help", "usage", "error-context"] }
console_error_panic_hook = "0.1"
console_log = "1"
dirs = "6"
image = { version = "0.25", default-features = false, features = ["png", "jpeg"] }
indicatif = "0.17"
js-sys = "0.3"
leptos = { version = "0.8", default-features = false, features = ["csr"] }
log = "0.4"
safetensors = "0.7"
ureq = "2"
wasm-bindgen = "0.2"
wasm-bindgen-futures = "0.4"
web-sys = { version = "0.3", features = ["Blob", "Cache", "CacheStorage", "CanvasRenderingContext2d", "DataTransfer", "Document", "DragEvent", "Element", "Event", "EventTarget", "File", "FileList", "Headers", "HtmlCanvasElement", "HtmlInputElement", "ImageBitmap", "ImageData", "Navigator", "ReadableStream", "ReadableStreamDefaultReader", "Request", "Response", "Window", "console"] }
