[package]
name = "sso"
version = "0.1.0"
edition = "2021"
publish = false

[dependencies]
uuid = { version = "*", features = ["v4"] }
chrono = "*"
libreauth = "*"
prometheus = "*"
url = "*"
serde = { version = "*", features = ["derive"] }
serde_json = "*"
sysinfo = "*"
oauth2 = { version = "*", default-features = false }
actix-web = "*"
