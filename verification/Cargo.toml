[package]
name = "luna_installer"
version = "0.1.0"
edition = "2021"
publish = false

[dependencies]
semver = "1"
zip = { version = "*", default-features = false, features = ["deflate"] }
serde = { version = "*", features = ["derive"] }
serde_json = "*"
reqwest = { version = "*", default-features = false, features = ["blocking", "rustls-tls"] }
clap = { version = "*", features = ["derive"] }
dirs = "*"
