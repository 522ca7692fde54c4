[package]
name = "s2_input"
version = "0.1.0"
edition = "2021"
publish = false

[dependencies]
actix-web = { version = "=4.18.1", default-features = false, features = ["compress-gzip"] }
anyhow = "=1.0.104"
awc = { version = "=3.11.0", default-features = false, features = ["compress-gzip", "rustls-0_23-webpki-roots"] }
chrono = "=0.4.45"
futures = "=0.3.34"
rmpv = { version = "=1.3.1", features = ["with-serde"] }
rustls = { version = "=0.23.46", default-features = false, features = ["ring", "std", "tls12"] }
serde = { version = "=1.0.229", features = ["derive"] }
serde_json = "=1.0.154"
tokio = { version = "=1.54.1", features = ["macros", "rt", "sync", "time"] }
tracing = "=0.1.44"
utoipa = "=4.2.3"
xxhash-rust = { version = "=0.8.19", features = ["xxh3"] }
