[package]
name = "bluetooth_tracker"
version = "0.1.0"
edition = "2021"
publish = false

[dependencies]
anyhow = "1"
clap = { version = "4", features = ["derive"] }
clap_complete = "4"
futures-util = "0.3"
serde = { version = "1", features = ["derive"] }
serde_json = "1"
time = { version = "0.3", features = ["formatting", "parsing", "macros", "serde", "local-offset"] }
tokio = { version = "1", features = ["macros", "rt-multi-thread", "signal", "time"] }
zbus = { version = "5", default-features = false, features = ["tokio"] }
