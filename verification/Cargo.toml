[package]
name = "rusty_advisor"
version = "0.1.0"
edition = "2021"
publish = false

[dependencies]
hdrhistogram = { version = "*", features = ["sync"] }
tokio = { version = "*", features = ["rt-multi-thread", "time", "sync", "net", "io-util", "macros"] }
prometheus = "*"
config = "*"
serde = { version = "*", features = ["derive"] }
serde_derive = "*"
log = "*"
pretty_env_logger = "*"
futures = "*"
lazy_static = "*"
strum = "*"
strum_macros = "*"
hyper = { version = "*", features = ["server", "http1"] }
hyper-util = { version = "*", features = ["tokio"] }
http-body-util = "*"
toml = "*"
