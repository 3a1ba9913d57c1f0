[package]
name = "y7ke_bootstrap"
version = "0.1.0"
edition = "2021"
publish = false

[dependencies]
anyhow = "1"
clap = { version = "4", features = ["derive"] }
futures = "0.3"
libp2p = { version = "*", features = ["tokio", "tcp", "noise", "yamux", "quic", "dns", "kad", "identify", "ping", "relay", "autonat", "macros", "ed25519"] }
rand = "0.8"
tokio = { version = "1", features = ["macros", "rt-multi-thread", "signal"] }
tracing = "0.1"
tracing-subscriber = { version = "0.3", features = ["env-filter"] }
