[package]
name = "package-json-upgrade"
version = "0.0.1"
edition = "2021"
publish = false

[dependencies]
dashmap = "=6.2.1"
futures = "=0.3.34"
nodejs-semver = "=4.2.0"
percent-encoding = "=2.3.2"
regex = "=1.13.1"
reqwest = { version = "=0.12.28", default-features = false, features = ["json", "gzip", "rustls-tls"] }
serde = { version = "1", features = ["derive"] }
serde_json = "=1.0.154"
tokio = { version = "1", features = ["rt-multi-thread", "macros", "io-std", "sync", "time"] }
tower-lsp = "=0.20.0"
zed_extension_api = "=0.7.0"
