[package]
name = "glorp"
version = "0.1.0"
edition = "2021"
publish = false

[dependencies]
serde = { version = "1", features = ["derive"] }
serde_json = "1"
regex = "1"
dns-lookup = "2"
discord-rich-presence = "1"
