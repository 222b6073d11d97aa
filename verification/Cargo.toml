[package]
name = "autoclicker"
version = "0.1.0"
edition = "2021"
publish = false

[dependencies]
directories = "6.0.0"
eframe = { version = "=0.22.0", default-features = false, features = ["glow", "default_fonts"] }
enigo = "=0.0.14"
rdev = "=0.5.3"
tracing = "0.1"
tracing-subscriber = { version = "0.3", features = ["env-filter"] }
