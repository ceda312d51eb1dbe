[package]
name = "remote_email_filtering"
version = "0.1.0"
edition = "2021"
publish = false

[dependencies]
clap = { version = "4", features = ["derive"] }
http = "1"
maybe-owned = "0.3"
oauth2 = { version = "5", default-features = false }
rand = "0.9"
reqwest = { version = "0.12", default-features = false, features = ["blocking"] }
serde = { version = "1", features = ["derive"] }
serde_json = "1"
thiserror = "1"
url = "2"
