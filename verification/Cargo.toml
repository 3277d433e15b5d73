[package]
name = "cargo_version_info"
version = "0.1.0"
edition = "2021"
publish = false

[dependencies]
anyhow = "=1.0.104"
bstr = "=1.13.1"
cargo_metadata = "=0.23.1"
cargo-plugin-utils = "=0.0.19"
clap = { version = "=4.6.7", features = ["derive", "env"] }
gix = { version = "=0.90.0", default-features = false, features = ["index", "revision"] }
octocrab = "=0.44.1"
portable-pty = "=0.9.0"
reqwest = { version = "=0.12.28", default-features = false, features = ["rustls-tls"] }
serde = { version = "=1.0.229", features = ["derive"] }
serde_json = "=1.0.154"
similar = "=2.7.0"
tokio = { version = "=1.54.1", features = ["rt-multi-thread", "fs"] }
toml = "=1.1.8"
toml_edit = "=0.25.17"
