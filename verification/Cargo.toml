[package]
name = "main_logic"
version = "0.1.0"
edition = "2021"
publish = false

[dependencies]
uuid = { version = "=1.29.0", features = ["v4"] }
serde = { version = "=1.0.229", features = ["derive"] }
serde_json = "=1.0.154"
thiserror = "=2.0.21"
log = "=0.4.34"
dotenvy = "=0.15.7"
dirs = "=7.0.0"
ctrlc = "=3.5.2"
notify = "=8.2.0"
tokio = { version = "=1.54.1", features = ["rt-multi-thread", "macros"] }
reqwest = { version = "=0.13.5", default-features = false, features = ["json", "form"] }
rusqlite = { version = "=0.40.2", features = ["bundled"] }
