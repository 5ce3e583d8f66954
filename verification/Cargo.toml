[package]
name = "diarize"
version = "0.1.0"
edition = "2021"
publish = false

[dependencies]
parakeet-rs = { version = "=0.3.8", default-features = false, features = ["sortformer", "load-dynamic", "api-28"] }

[dev-dependencies]
hound = "=3.5.1"
serde_json = "=1.0.151"
