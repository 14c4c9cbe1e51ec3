[package]
name = "xdiff"
version = "0.1.0"
edition = "2021"
publish = false

[dependencies]
anyhow = "*"
clap = { version = "*", features = ["derive"] }
dialoguer = "*"
reqwest = { version = "*", default-features = false, features = ["json"] }
serde = { version = "*", features = ["derive"] }
serde_json = "*"
serde_urlencoded = "*"
serde_yaml = "*"
similar = "*"
syntect = { version = "*", default-features = false, features = ["default-fancy"] }
tokio = { version = "*", features = ["macros", "rt-multi-thread", "fs"] }
url = "*"
