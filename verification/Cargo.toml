[package]
name = "sinew"
version = "0.1.0"
edition = "2021"
publish = false

[dependencies]
rand = "0.9"
jiff = "0.2"
nix = { version = "0.30", features = ["signal", "process"] }
reqwest = { version = "0.12", default-features = false, features = ["json"] }
axum = "0.8"
tokio = { version = "1", features = ["full"] }
tokio-util = "0.7"
tracing = "0.1"
tracing-subscriber = { version = "0.3", features = ["env-filter"] }
serde = { version = "1", features = ["derive"] }
serde_json = "1"
rmcp = { version = "*", features = ["server", "macros", "transport-io"] }
clap = { version = "4", features = ["derive"] }
error-stack = "*"
thiserror = "2"
