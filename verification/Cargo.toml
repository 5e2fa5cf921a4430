[package]
name = "rustcoding"
version = "0.1.0"
edition = "2021"
publish = false

[dependencies]
anyhow = "=1.0.104"
serde = { version = "=1.0.229", features = ["derive"] }
serde_json = "=1.0.154"
console = "=0.16.6"
indicatif = "=0.18.6"
home = "=0.5.12"
colored = "=3.1.1"
bytes = "=1.12.1"
futures = "=0.3.34"
futures-util = "=0.3.34"
tokio = { version = "=1.54.1", features = ["macros", "rt-multi-thread", "process", "time"] }
reqwest = { version = "=0.13.5", default-features = false, features = ["json", "stream"] }
crossterm = "=0.29.0"
ratatui = "=0.30.2"
rig-core = "=0.36.0"
actix-web = { version = "=4.18.1", default-features = false, features = ["macros"] }
