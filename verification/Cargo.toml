[package]
name = "wavcut"
version = "0.1.0"
edition = "2021"
publish = false

[dependencies]
chrono = { version = "=0.4.45", default-features = false, features = ["std"] }
circular-buffer = "=1.2.1"
clap = { version = "=4.6.7", features = ["derive"] }
csv = "=1.4.0"
hound = "=3.5.1"
indicatif = "=0.18.6"
serde = { version = "=1.0.229", features = ["derive"] }
