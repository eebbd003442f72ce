[package]
name = "rneter"
version = "0.1.0"
edition = "2021"
publish = false

[dependencies]
regex = "=1.13.1"
sha2 = "=0.11.0"
tokio = { version = "=1.53.2", features = ["rt", "rt-multi-thread", "sync", "time", "macros"] }
russh = "=0.62.7"
async-ssh2-tokio = "=0.13.0"
moka = { version = "=0.12.16", features = ["future"] }
once_cell = "=1.21.4"

[dev-dependencies]
serde_json = "=1.0.151"
