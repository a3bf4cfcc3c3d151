[package]
name = "mandelbrot"
version = "0.1.0"
edition = "2021"
publish = false

[dependencies]
console_error_panic_hook = "0.1"
futures = "0.3"
js-sys = "0.3"
num-complex = "0.4"
wasm-bindgen = "0.2"
wasm-bindgen-futures = "0.4"
web-sys = { version = "0.3", features = ["CanvasRenderingContext2d", "Document", "Element", "HtmlAnchorElement", "HtmlCanvasElement", "HtmlElement", "ImageData", "Node", "Performance", "Window", "console"] }
