[package]
name = "cloud-storage"
version = "0.1.0"
edition = "2021"
publish = false

[dependencies]
anyhow = "=1.0.104"
bytes = "=1.12.1"
crc32c = "=0.6.8"
futures = "=0.3.34"
google-cloud-gax = "=1.15.0"
google-cloud-language-v2 = "1"
google-cloud-longrunning = "=1.14.0"
google-cloud-lro = "=1.11.0"
google-cloud-secretmanager-v1 = "=1.14.0"
google-cloud-storage = "=1.21.0"
tokio = { version = "=1.54.1", features = ["macros", "rt-multi-thread", "sync", "time"] }
uuid = { version = "=1.29.0", features = ["v4"] }
