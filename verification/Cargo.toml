[package]
name = "ocipkg"
version = "0.1.0"
edition = "2021"
publish = false

[dependencies]
sha2 = "=0.10.9"
anyhow = "=1.0.104"
cargo_metadata = "=0.23.1"
clap = { version = "=3.2.25", features = ["derive"] }
directories = "=6.0.0"
env_logger = "=0.11.11"
flate2 = "=1.1.10"
git2 = { version = "=0.21.0", default-features = false }
log = "=0.4.34"
oci-spec = "=0.10.0"
reqwest = { version = "=0.12.28", default-features = false, features = ["rustls-tls"] }
serde_json = "=1.0.154"
tar = "=0.4.46"
tokio = { version = "=1.54.1", features = ["rt", "macros", "time"] }
uuid = { version = "=1.29.0", features = ["v4"] }
