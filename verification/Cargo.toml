[package]
name = "kaiten_cli"
version = "0.1.0"
edition = "2021"
publish = false

[dependencies]
chrono = "*"
clap = { version = "*", features = ["derive"] }
colored = "*"
reqwest = { version = "*", default-features = false, features = ["json", "rustls-tls"] }
serde = "*"
serde_derive = "*"
tabled = "*"
tempfile = "*"
termimad = "*"
tokio = { version = "*", features = ["rt-multi-thread", "macros"] }
