[package]
name = "open-tiles"
version = "0.1.0"
edition = "2021"
publish = false

[dependencies]
anyhow = "=1.0.104"
aws-config = { version = "=1.13.0", default-features = false, features = ["rt-tokio", "behavior-version-latest", "credentials-process"] }
aws-sdk-s3 = { version = "=1.157.0", default-features = false, features = ["rt-tokio", "sigv4a", "http-1x"] }
aws-smithy-http-client = { version = "=1.5.2", features = ["rustls-aws-lc"] }
aws-smithy-types = "=1.9.1"
axum = "=0.8.9"
blake3 = "=1.8.7"
clap = { version = "=4.6.7", features = ["derive", "env"] }
futures-core = "=0.3.34"
image = { version = "=0.25.10", default-features = false, features = ["png", "jpeg"] }
log = "=0.4.35"
rustls-native-certs = "=0.8.5"
serde = { version = "=1.0.229", features = ["derive"] }
serde_json = "=1.0.154"
thiserror = "=2.0.21"
tokio = { version = "=1.54.1", features = ["rt-multi-thread", "macros", "net", "signal", "sync", "time"] }
ureq = "=2.12.1"
webpki-root-certs = "=1.0.11"

[dev-dependencies]
gltf = "=1.4.1"
