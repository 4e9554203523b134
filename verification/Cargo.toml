[package]
name = "raycaster"
version = "0.1.0"
edition = "2021"
publish = false

[dependencies]
wasm-bindgen = "0.2"
js-sys = "0.3"
web-sys = { version = "0.3", features = ["Window", "Document", "Element", "EventTarget", "HtmlCanvasElement", "CanvasRenderingContext2d", "ImageData", "KeyboardEvent", "MouseEvent", "console"] }
image = { version = "0.25", default-features = false, features = ["jpeg"] }
