[package]
name = "p2pssh"
version = "0.1.0"
edition = "2021"
publish = false

[dependencies]
anyhow = "1"
hostname = "0.4"
iroh = "*"
iroh-mdns-address-lookup = "*"
lexopt = "*"
libc = "0.2"
noq = "*"
tokio = { version = "1", features = ["rt-multi-thread", "macros", "net", "io-util", "io-std", "signal", "sync", "time"] }
tracing = "0.1"
tracing-subscriber = { version = "0.3", features = ["env-filter"] }
