[package]
name = "hiroute"
version = "0.1.0"
edition = "2021"
publish = false

[dependencies]
async-trait = "*"
bytes = "*"
getrandom = "0.3"
http = "1"
nix = { version = "*", features = ["fs", "process", "signal", "user"] }
serde = { version = "1", features = ["derive"] }
serde_json = "1"
sha2 = "0.10"
tempfile = "3"
thiserror = "2"
tokio = { version = "1", features = ["io-util", "macros", "net", "rt", "rt-multi-thread", "sync", "time"] }
tokio-util = "*"
toml_edit = "0.22"
zeroize = "1"
