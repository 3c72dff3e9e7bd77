[package]
name = "dt_cert_uploader"
version = "0.1.0"
edition = "2021"
publish = false

[dependencies]
clap = { version = "=4.6.7", default-features = false, features = ["std", "derive", "help", "usage", "error-context"] }
eframe = { version = "=0.31.1", default-features = false, features = ["default_fonts", "glow", "x11"] }
mcumgr-toolkit = { version = "=0.20.0", default-features = false }
rfd = "=0.17.2"
serde_json = "=1.0.154"
serialport = { version = "=4.10.1", default-features = false }
