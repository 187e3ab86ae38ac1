[package]
name = "graphql_field_timer"
version = "0.1.0"
edition = "2021"
publish = false

[dependencies]
anyhow = "1"
console = "0.15"
graphql-parser = "0.4"
hyper = { version = "0.14", features = ["client", "http1"] }
indicatif = "0.17"
rustls = "0.20"
rustls-native-certs = "0.6"
serde_json = "1"
structopt = "0.3"
tokio = { version = "1", features = ["io-util", "macros", "net", "rt-multi-thread", "time"] }
tokio-rustls = "0.23"
