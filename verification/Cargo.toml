[package]
name = "checkpoint"
version = "0.1.0"
edition = "2021"
publish = false

[dependencies]
sha2 = "=0.10.9"
similar = "=2.7.0"
base64 = "=0.22.1"
ed25519-dalek = "=2.2.0"
chrono = { version = "=0.4.45", features = ["serde"] }
serde = { version = "=1.0.229", features = ["derive"] }
serde_json = "=1.0.154"
serde_with = { version = "=3.24.0", default-features = false, features = ["macros", "base64", "chrono_0_4"] }
walkdir = "=2.5.0"
dunce = "=1.0.5"
eframe = { version = "=0.36.2", default-features = false, features = ["glow", "x11", "default_fonts"] }
egui = "=0.36.2"
egui_extras = { version = "=0.36.2", default-features = false, features = ["image"] }
egui-file-dialog = { version = "=0.15.0", default-features = false }
image = { version = "=0.25.10", default-features = false, features = ["png"] }
arboard = { version = "=3.7.0", default-features = false }
