[package]
name = "charge_overview"
version = "0.1.0"
edition = "2021"
publish = false

[dependencies]
anyhow = "1"
axum = { version = "0.8", default-features = false, features = ["http1", "tokio", "ws"] }
chrono = { version = "0.4", default-features = false, features = ["clock"] }
egui = "0.31"
egui_plot = "0.31"
epicars = { version = "*", default-features = false }
ewebsock = { version = "0.8", default-features = false }
futures = { version = "0.3", default-features = false, features = ["std"] }
log = "0.4"
reqwest = { version = "0.12", default-features = false, features = ["json", "stream"] }
serde = { version = "1", features = ["derive"] }
serde_json = "1"
serde_norway = "0.9"
tokio = { version = "1", features = ["macros", "rt-multi-thread", "net", "io-util", "sync", "time", "process"] }
tower-http = { version = "0.6", default-features = false, features = ["fs"] }
tracing = { version = "0.1", default-features = false, features = ["std"] }
tracing-subscriber = { version = "0.3", default-features = false, features = ["env-filter", "fmt"] }
wasm-bindgen = "0.2"
wasm-bindgen-futures = "0.4"
web-sys = { version = "0.3", features = ["Window", "Document", "Element", "HtmlElement", "HtmlCanvasElement", "Location"] }
