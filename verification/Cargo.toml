[package]
name = "mx"
version = "0.1.0"
edition = "2021"
publish = false

[dependencies]
anyhow = "1"
base64 = "0.22"
block2 = "0.6"
clap = { version = "4", features = ["derive"] }
jpeg-encoder = "*"
libc = "0.2"
objc2 = "0.6"
objc2-foundation = "0.3"
png = "*"
rmcp = { version = "*", features = ["server", "macros", "transport-io"] }
schemars = "1"
serde = { version = "1", features = ["derive"] }
serde_json = "1"
tempfile = "3"
tokio = { version = "1", features = ["full"] }
uuid = { version = "1", features = ["v4"] }
