[package]
name = "lazymc"
version = "0.1.0"
edition = "2021"
publish = false

[dependencies]
serde_json = "*"
nix = { version = "*", features = ["signal"] }
rand = "*"
version-compare = "*"
minecraft-protocol = "*"
serde = { version = "*", features = ["derive"] }
toml = "*"
clap = "*"
tokio = { version = "*", features = ["rt-multi-thread", "net", "io-util", "time", "sync", "macros"] }
