[package]
name = "steam_art_manager"
version = "0.1.0"
edition = "2021"
publish = false

[dependencies]
serde = { version = "=1.0.229", features = ["derive"] }
serde_json = { version = "=1.0.154", features = ["preserve_order"] }
keyvalues-parser = "=0.1.0"
vdf-serde = "=0.3.0"
home = "=0.5.12"
winreg = "=0.52.0"
reqwest = { version = "=0.11.27", default-features = false, features = ["rustls-tls"] }
zip = { version = "=0.6.6", default-features = false, features = ["deflate"] }
