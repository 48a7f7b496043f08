[package]
name = "rostra"
version = "0.1.0"
edition = "2021"
publish = false

[dependencies]
url = "2"
blake3 = { version = "1", features = ["pure"] }
data-encoding = "2"
time = "0.3"
scraper = "*"
atom_syndication = "*"
reqwest = { version = "*", default-features = false }
tokio = { version = "1", features = ["rt-multi-thread", "macros", "time", "fs"] }
redb = "*"
serde = { version = "1", features = ["derive"] }
serde_json = "1"
clap = { version = "4", features = ["derive"] }
tracing = "0.1"
tracing-subscriber = { version = "0.3", features = ["env-filter"] }
axum = "*"
brotli = "*"
bytes = "1"
futures = "0.3"
tokio-stream = { version = "0.1", features = ["fs"] }
async-stream = "0.3"
tower-service = "0.3"
