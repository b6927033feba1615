[package]
name = "vtui"
version = "0.1.0"
edition = "2021"
publish = false

[dependencies]
unicode-segmentation = "1"
chrono = { version = "0.4", features = ["serde"] }
clap = "4"
dirs = "*"
nix = { version = "0.29", features = ["term", "poll", "signal"] }
reqwest = { version = "0.12", default-features = false, features = ["blocking", "rustls-tls"] }
select = "0.6"
serde = { version = "1", features = ["derive"] }
serde_json = "1"
