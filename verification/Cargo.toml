[package]
name = "graphql_engine"
version = "0.1.0"
edition = "2021"
publish = false

[dependencies]
graphql-parser = "0.2.3"
indexmap = "2"
futures = "0.3"
serde = { version = "1", features = ["derive"] }
serde_json = "1"
slog = "2"
uuid = { version = "1", features = ["v4"] }
hyper = { version = "0.14", features = ["server", "http1", "tcp"] }
tokio = { version = "1", features = ["rt", "sync", "net"] }
tokio-tungstenite = "0.21"
failure = "0.1.8"
ethabi = "18"
ethereum-types = "0.14"
web3 = { version = "0.19", default-features = false }
