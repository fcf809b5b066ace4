[package]
name = "blinc_app"
version = "0.1.0"
edition = "2021"
publish = false

[dependencies]
lru = "*"
notify = "*"
tungstenite = "*"
serde = { version = "*", features = ["derive"] }
serde_json = "*"
subsecond = "*"
dioxus-cli-config = "*"
tracing = "*"
