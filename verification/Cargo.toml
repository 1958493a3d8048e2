[package]
name = "redux"
version = "0.1.0"
edition = "2021"
publish = false

[dependencies]
anyhow = "1"
blake3 = { version = "1", features = ["mmap", "rayon"] }
bpaf = { version = "0.9", features = ["derive"] }
gix = "*"
globset = "0.4"
humantime = "2"
jobserver = "0.1"
pathdiff = "0.2"
termtree = "*"
tracing = "0.1"
tracing-subscriber = { version = "0.3", features = ["env-filter"] }
uuid = { version = "1", features = ["v4"] }
walkdir = "2"
yansi = "1"
