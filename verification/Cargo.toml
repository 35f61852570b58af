[package]
name = "accesskit_web"
version = "0.1.0"
edition = "2021"
publish = false

[dependencies]
accesskit = "0.17"
accesskit_consumer = "0.26"
log = "0.4"
wasm-bindgen = "0.2"
web-sys = { version = "0.3", features = ["Window", "Document", "Element", "HtmlElement", "Node", "EventTarget", "Event", "KeyboardEvent", "InputEvent", "ClipboardEvent", "DataTransfer", "HtmlInputElement", "HtmlSelectElement", "CssStyleDeclaration"] }
