[package]
name = "rustdocs"
version = "0.1.0"
edition = "2021"
publish = false

[dependencies]
semver = "1"
zstd = "*"
flate2 = "1"
tar = "*"
rustdoc-types = "*"
serde = { version = "1", features = ["derive"] }
serde_json = "1"
anyhow = "1"
reqwest = { version = "*", default-features = false, features = ["json", "rustls-tls"] }
tokio = { version = "1", features = ["macros", "rt-multi-thread", "sync", "io-std"] }
rmcp = { version = "*", features = ["server", "transport-io", "macros"] }
