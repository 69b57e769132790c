[package]
name = "spec_store_core"
version = "0.3.0"
edition = "2021"
publish = false

[dependencies]
regex = "1"
sha2 = "0.10"
serde = { version = "1", features = ["derive"] }
serde_json = "1"
toml = "*"
chrono = "0.4"
uuid = { version = "1", features = ["v4"] }
rusqlite = { version = "*", features = ["bundled"] }
walkdir = "2"
clap = { version = "4", features = ["derive"] }
colored = "*"
thiserror = "*"
tokio = { version = "1", features = ["macros", "rt-multi-thread"] }
anyhow = "1"

[dev-dependencies]
tempfile = "3"
