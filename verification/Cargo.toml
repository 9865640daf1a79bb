[package]
name = "dora_inspect"
version = "0.1.0"
edition = "2021"
publish = false

[dependencies]
clap = { version = "4", features = ["derive"] }
crossterm = "0.28"
eyre = "0.6"
ratatui = "0.29"
serde = { version = "1", features = ["derive"] }
serde_json = "1"
tabwriter = "1"
tokio = { version = "1", features = ["macros", "rt-multi-thread", "sync"] }
uuid = "1"
zenoh = { version = "1", default-features = false, features = ["transport_tcp"] }
