[package]
name = "starbreaker_ui"
version = "0.1.0"
edition = "2021"
publish = false

[dependencies]
serde = { version = "1", features = ["derive"] }
serde_json = "1"
swf = "*"
log = "0.4"
thiserror = "*"
image = { version = "*", default-features = false, features = ["png"] }
