[package]
name = "svg_export"
version = "0.1.0"
edition = "2021"
publish = false

[dependencies]
vsvg = "=0.5.0"
kurbo = "=0.11.0"
wasm-bindgen = "=0.2.129"
js-sys = "=0.3.106"
web-sys = { version = "=0.3.106", features = ["Blob", "BlobPropertyBag", "Url", "Window", "Document", "Element", "HtmlElement", "CssStyleDeclaration", "Node"] }
