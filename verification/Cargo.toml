[package]
name = "trackvault"
version = "0.1.0"
edition = "2021"
publish = false

[dependencies]
anyhow = "*"
audiotags = "*"
futures = "*"
reqwest = { version = "*", default-features = false, features = ["json", "rustls-tls"] }
serde = { version = "*", features = ["derive"] }
serde_json = "*"
term-painter = "*"
tokio = { version = "*", features = ["macros", "rt-multi-thread", "fs"] }
