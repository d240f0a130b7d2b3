[package]
name = "voiceai"
version = "0.1.0"
edition = "2021"
publish = false

[dependencies]
arboard = { version = "3", default-features = false }
dotenvy = "0.15"
eframe = { version = "0.27", default-features = false, features = ["default_fonts", "glow"] }
flacenc = "0.4"
rdev = "0.5"
reqwest = { version = "0.12", default-features = false, features = ["json", "multipart", "rustls-tls"] }
serde_json = "1"
tokio = { version = "1", features = ["rt-multi-thread", "time"] }
