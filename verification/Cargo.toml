[package]
name = "hakugi"
version = "0.1.0"
edition = "2021"
publish = false

[dependencies]
difflib = "*"
diffx-core = "*"
serde = { version = "*", features = ["derive"] }
serde_derive = "*"
serde_json = "*"
serde_json_diff = "*"
chrono = "*"
tokio = { version = "*", features = ["rt-multi-thread", "macros"] }
reqwest = { version = "*", default-features = false, features = ["json", "rustls-tls"] }
egui = "*"
eframe = { version = "*", default-features = false, features = ["glow", "default_fonts", "x11"] }

[dev-dependencies]
regex = "*"
