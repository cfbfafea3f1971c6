[package]
name = "gatekeeper"
version = "0.1.0"
edition = "2021"
publish = false

[dependencies]
lightning = "*"
log = "*"
tokio = { version = "*", features = ["fs", "net", "time", "rt", "macros"] }
torut = "*"
triggered = "*"
