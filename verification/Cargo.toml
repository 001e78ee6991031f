[package]
name = "loginhuset"
version = "0.1.0"
edition = "2021"
publish = false

[dependencies]
anyhow = "1"
base64 = "0.21"
chrono = "0.4"
diesel = { version = "2", features = ["sqlite", "chrono"] }
getopts = "0.2"
hyper = { version = "0.14", features = ["full"] }
hyper-staticfile = "0.9"
hyper-tls = "0.5"
libsqlite3-sys = { version = "*", features = ["bundled"] }
log = "0.4"
rand = "0.8"
serde = { version = "1", features = ["derive"] }
simplelog = "0.12"
tokio = { version = "1", features = ["full"] }
toml = "0.8"
