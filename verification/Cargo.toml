[package]
name = "vdownloader"
version = "0.1.0"
edition = "2021"
publish = false

[dependencies]
serde_json = "1"
urlencoding = "2"
tokio = { version = "1", features = ["macros", "rt-multi-thread", "process", "sync", "io-util", "time"] }
reqwest = { version = "0.12", default-features = false, features = ["rustls-tls"] }
youtube_dl = "*"
