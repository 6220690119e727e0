[package]
name = "p2p_network_visualizer"
version = "0.1.0"
edition = "2021"
publish = false

[dependencies]
xml-rs = "0.8"
serde = { version = "1", features = ["derive"] }
axum = { version = "0.6", default-features = false, features = ["http1", "json", "tokio"] }
tokio = { version = "1", features = ["rt-multi-thread", "sync"] }
egui = "0.26"
