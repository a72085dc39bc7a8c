[package]
name = "gitlab_runner"
version = "0.1.0"
edition = "2021"
publish = false

[dependencies]
async-trait = "0.1"
bytes = "=1.12.1"
flate2 = "=1.1.10"
futures = "0.3"
gix = { version = "=0.70.0", default-features = false, features = ["blocking-http-transport-reqwest-rust-tls", "worktree-mutation", "revision"] }
glob = "=0.3.4"
hmac = "=0.12.1"
http = "1"
kstring = "=2.0.2"
multer = "=3.1.0"
normalize-path = "=0.2.1"
parking_lot = "0.12"
rand = "=0.9.5"
reqwest = { version = "0.12", default-features = false, features = ["json", "multipart", "stream", "rustls-tls"] }
serde = { version = "1", features = ["derive"] }
serde_json = "1"
sha2 = "0.10"
tempfile = "=3.27.0"
thiserror = "1"
tokio = { version = "1", features = ["fs", "io-util", "macros", "rt-multi-thread", "sync", "time"] }
tokio-retry2 = { version = "=0.9.1", features = ["jitter"] }
tokio-util = { version = "0.7", features = ["io"] }
tracing = "0.1"
tracing-subscriber = "0.3"
url = "=2.5.8"
wiremock = "=0.6.5"
zip = { version = "=0.6.6", default-features = false, features = ["deflate"] }
