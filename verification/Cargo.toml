[package]
name = "px"
version = "0.1.0"
edition = "2021"
publish = false

[dependencies]
serde_json = "1"
clap = { version = "4", features = ["derive"] }
clipboard-win = "5"
ureq = "3"
winreg = "0.55"
zip = { version = "2", default-features = false, features = ["deflate"] }
