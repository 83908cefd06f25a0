[package]
name = "crabcore"
version = "0.1.0"
edition = "2021"
publish = false

[dependencies]
base64 = "0.22"
chrono = { version = "0.4", features = ["serde"] }
cpal = "0.15"
dirs = "*"
fdk-aac-sys = "*"
libloading = "0.8"
lofty = "0.22"
native-tls = "0.2"
opus = "0.3"
rodio = "0.20"
rtrb = "0.3"
rubato = "0.15"
rusqlite = { version = "0.32", features = ["bundled"] }
rust_xlsxwriter = "*"
serde = { version = "1", features = ["derive"] }
serde_json = "1"
symphonia = { version = "0.5", features = ["all"] }
tempfile = "3"
thiserror = "1"
tracing = "0.1"
uuid = { version = "1", features = ["v4", "serde"] }
walkdir = "2"
