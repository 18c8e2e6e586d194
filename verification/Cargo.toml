[package]
name = "cloudflow"
version = "0.1.0"
edition = "2021"
publish = false

[dependencies]
num = "=0.4.3"
url = "=2.5.8"
uuid = { version = "=1.29.0", features = ["v4"] }
clap = { version = "=4.6.7", features = ["cargo"] }
tokio = { version = "=1.54.1", features = ["rt-multi-thread", "net", "io-util", "sync", "macros"] }
dashmap = "5"
sharded-slab = "0.1"
