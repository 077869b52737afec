[package]
name = "fastembed"
version = "0.1.0"
edition = "2021"
publish = false

[dependencies]
hf-hub = { version = "=0.4.3", default-features = false, features = ["ureq"] }
image = { version = "=0.25.10", default-features = false }
ndarray = "=0.17.2"
ort = { version = "=2.0.0-rc.11", default-features = false, features = ["std", "ndarray", "load-dynamic"] }
serde_json = { version = "=1.0.154", features = ["raw_value"] }
thiserror = "=2.0.21"
tokenizers = { version = "=0.23.2", default-features = false, features = ["onig"] }
