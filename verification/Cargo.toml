[package]
name = "starling_server"
version = "0.1.0"
edition = "2021"
publish = false

[dependencies]
anyhow = "1"
chrono = "*"
fs2 = "*"
iroh-base = { version = "=1.4.1", features = ["key"] }
libc = "*"
lru = "*"
postcard = { version = "=1.1.3", features = ["use-std"] }
serde = { version = "1", features = ["derive"] }
sled = "=0.34.7"
tokio = { version = "1", features = ["rt-multi-thread", "macros", "sync", "time", "signal"] }
uuid = { version = "1", features = ["v4"] }
ratatui = "*"
crossterm = "*"
cpal = "*"
opus = "*"
ringbuf = "*"
