[package]
name = "ocorganize_core"
version = "0.1.0"
edition = "2021"
publish = false

[dependencies]
chrono = "*"
serde = { version = "*", features = ["derive"] }
serde_json = "*"
sysinfo = "*"
jwalk = "*"
rayon = "*"
dashmap = "*"
parking_lot = "*"
thiserror = "*"
