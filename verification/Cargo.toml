[package]
name = "dwm_status"
version = "0.1.0"
edition = "2021"
publish = false

[dependencies]
async-trait = "0.1"
chrono = "0.4"
chrono-tz = "*"
futures-util = "0.3"
rtnetlink = "*"
serde = { version = "1", features = ["derive"] }
tokio = { version = "1", features = ["full"] }
toml = "*"
x11rb = "*"
