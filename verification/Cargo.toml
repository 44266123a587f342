[package]
name = "egui_xyflow"
version = "0.1.0"
edition = "2021"
publish = false

[dependencies]
egui = "0.31"
epaint = "0.31"
serde = { version = "1", features = ["derive"] }
smallvec = "1"
