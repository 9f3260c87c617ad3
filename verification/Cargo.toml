[package]
name = "linecast"
version = "0.1.0"
edition = "2021"
publish = false

[dependencies]
anyhow = "=1.0.104"
clap = { version = "=4.6.7", features = ["derive"] }
tokio = { version = "=1.53.2", features = ["rt", "macros", "time", "sync", "io-util", "net"] }
tokio-listener = { version = "=0.5.2", features = ["clap"] }
