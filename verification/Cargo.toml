[package]
name = "web_jingzi"
version = "0.1.0"
edition = "2021"
publish = false

[dependencies]
redb = "*"
uuid = { version = "*", features = ["v4"] }
time = { version = "*", features = ["formatting"] }
async-compression = { version = "*", features = ["futures-io", "gzip", "brotli", "deflate"] }
futures-lite = "*"
http-types = "*"
async-h1 = "*"
async-net = "*"
async-io = "*"
async-dup = "*"
async-executor = "*"
async-native-tls = "*"
anyhow = "*"
toml = "*"
serde = { version = "*", features = ["derive"] }
tracing = "*"
tracing-subscriber = "*"

[dev-dependencies]
tempfile = "*"
