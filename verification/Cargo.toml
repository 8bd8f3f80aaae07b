[package]
name = "anonynews_rs"
version = "0.1.0"
edition = "2021"
publish = false

[dependencies]
arrayvec = "0.7"
bytes = "1"
rml_rtmp = "*"
anyhow = "1"
tokio = { version = "1", features = ["full"] }
tracing = "0.1"
tracing-subscriber = "0.3"
ffmpeg-next = "*"
cxx = "1"
libc = "0.2"
