[package]
name = "elastic-stream"
version = "0.1.0"
edition = "2021"
publish = false

[dependencies]
bytes = "=1.12.1"
log = "=0.4.35"
tokio = { version = "=1.54.1", features = ["sync", "rt", "rt-multi-thread", "time", "net", "io-util", "macros"] }
rocksdb = { version = "=0.21.0", default-features = false }
jni = "=0.21.1"
minitrace = "=0.4.1"
minitrace-jaeger = "=0.4.1"
chrono = "=0.4.45"
