[package]
name = "rts_wiki"
version = "0.1.0"
edition = "2021"
publish = false

[dependencies]
serde = { version = "1", features = ["derive"] }
serde_json = "1"
tokio = { version = "1", features = ["rt-multi-thread", "macros", "sync", "time", "io-util"] }
tokio-util = { version = "0.7", features = ["io"] }
futures-util = "0.3"
reqwest = { version = "0.12", default-features = false, features = ["blocking", "stream", "rustls-tls", "http2", "charset"] }
