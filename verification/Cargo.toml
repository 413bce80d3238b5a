[package]
name = "wca_rankings"
version = "0.1.0"
edition = "2021"
publish = false

[dependencies]
csv = "*"
reqwest = { version = "*", default-features = false, features = ["json"] }
rustc-hash = "*"
serde = { version = "*", features = ["derive"] }
serde_json = "*"
tempfile = "*"
tokio = { version = "*", features = ["macros", "rt-multi-thread"] }
zip = "*"
