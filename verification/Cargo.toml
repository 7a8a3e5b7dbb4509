[package]
name = "dify_agent_runtime"
version = "0.1.0"
edition = "2021"
publish = false

[dependencies]
base64 = "0.22"
bytes = "1"
cap-std = "3"
clap = "4"
futures-core = "0.3"
hex = "0.4"
http-body-util = "0.1"
hyper = { version = "1", features = ["http1", "server"] }
hyper-util = { version = "0.1", features = ["tokio"] }
landlock = "0.4"
libc = "0.2"
mime_guess = "2"
parking_lot = "0.12"
rand = "0.8"
reqwest = { version = "0.12", default-features = false, features = ["json", "multipart", "rustls-tls"] }
rusqlite = { version = "0.31", features = ["bundled"] }
serde = { version = "1", features = ["derive"] }
serde_json = "1"
sha2 = "0.10"
tar = "0.4"
thiserror = "1"
tokio = { version = "1", features = ["full"] }
url = "2"
zip = { version = "2", default-features = false, features = ["deflate"] }
zstd = "0.13"
