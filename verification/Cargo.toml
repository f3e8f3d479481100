[package]
name = "transcribe"
version = "0.1.0"
edition = "2021"
publish = false

[dependencies]
chrono = "*"
cpal = "*"
crossbeam = "*"
ctrlc = "*"
dirs = "*"
ffmpeg-next = "*"
hound = "*"
indicatif = "*"
libc = "*"
reqwest = { version = "0.12", default-features = false, features = ["blocking", "rustls-tls"] }
screencapturekit = "*"
wasapi = "*"
whisper-rs = "*"
