[package]
name = "jasonrpc"
version = "0.1.0"
edition = "2021"
publish = false

[dependencies]
bytes = "1"
fastwebsockets = { version = "0.10", features = ["upgrade"] }
http = "1"
http-body = "1"
http-body-util = "0.1"
hyper = { version = "1", features = ["client", "server", "http1"] }
hyper-util = { version = "0.1", features = ["client", "client-legacy", "http1", "tokio"] }
itoa = "1"
memchr = "2"
serde = { version = "1", features = ["derive"] }
serde_json = { version = "1", features = ["raw_value"] }
tokio = { version = "1", features = ["io-util", "macros", "net", "rt", "rt-multi-thread", "sync", "time"] }
tower-service = "0.3"
