[package]
name = "stress_client"
version = "0.1.0"
edition = "2021"
publish = false

[dependencies]
anyhow = "1"
crossterm = "0.17"
evmap = "=9.0.1"
lazy_static = "1"
rand = "=0.7.3"
structopt = "0.3"
tokio = { version = "0.3", features = ["full"] }
tui = { version = "0.9", default-features = false, features = ["crossterm"] }
