[package]
name = "copybot_hot"
version = "0.1.0"
edition = "2021"
publish = false

[dependencies]
futures-util = "0.3"
hex = "0.4"
hmac = "0.12"
k256 = { version = "0.13", features = ["ecdsa"] }
libc = "0.2"
reqwest = { version = "0.12", default-features = false, features = ["json"] }
serde = { version = "1", features = ["derive"] }
serde_json = "1"
sha2 = "0.10"
tiny-keccak = { version = "2", features = ["keccak"] }
tokio = { version = "1", features = ["rt-multi-thread", "macros", "time", "net", "sync"] }
tokio-tungstenite = "0.21"
