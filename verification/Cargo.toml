[package]
name = "gaspipe"
version = "0.1.0"
edition = "2021"
publish = false

[dependencies]
hex = "0.4"
anyhow = "1"
serde = { version = "1", features = ["derive"] }
serde_json = "1"
structopt = "0.3"
ureq = { version = "2", features = ["json"] }
