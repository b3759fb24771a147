[package]
name = "weever-streaming"
version = "0.1.0"
edition = "2021"
publish = false

[dependencies]
bincode = "=2.0.1"
rustls-pemfile = "=1.0.4"
anyhow = "=1.0.104"
log = "=0.4.35"
clap = { version = "=4.6.7", features = ["derive", "env"] }
tokio = { version = "=1.54.1", features = ["rt-multi-thread", "macros", "sync", "time"] }
actix-web = { version = "=4.18.1", default-features = false, features = ["macros", "rustls"] }
actix-cors = "=0.6.5"
actix-files = "=0.6.10"
actix-web-httpauth = "=0.8.3"
async-trait = "=0.1.92"
nats = "0.25"
once_cell = "=1.21.4"
prometheus = { version = "=0.13.4", default-features = false }
redis = { version = "=0.23.5", default-features = false, features = ["aio", "tokio-comp"] }
rustls = "=0.20.9"
serde = { version = "=1.0.229", features = ["derive"] }
tracing = "=0.1.44"
tracing-appender = "=0.2.5"
tracing-log = "=0.1.4"
tracing-subscriber = { version = "=0.3.23", features = ["env-filter"] }
webrtc = "0.9"
