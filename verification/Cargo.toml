[package]
name = "tuit"
version = "0.1.0"
edition = "2021"
publish = false

[dependencies]
humansize = "=2.1.3"
iroh = { version = "=1.3.0", default-features = false, features = ["tls-ring"] }
iroh-blobs = { version = "=0.103.1", default-features = false, features = ["fs-store"] }
tokio = { version = "=1.53.2", features = ["rt-multi-thread", "macros", "sync", "time"] }
tokio-util = "=0.7.19"
n0-future = "=0.3.2"
fs2 = "=0.4.3"
serde = { version = "=1.0.229", features = ["derive"] }
serde_json = "=1.0.151"
