[package]
name = "iplayer_catalog"
version = "0.1.0"
edition = "2021"
publish = false

[dependencies]
select = "0.6"
url = "2"
serde = { version = "1", features = ["derive"] }
serde_json = "1"
reqwest = { version = "0.12", default-features = false, features = ["blocking"] }
