[package]
name = "gitlab_mr_resource"
version = "0.1.0"
edition = "2021"
publish = false

[dependencies]
anyhow = "*"
chrono = "*"
clap = { version = "*", features = ["derive"] }
git2 = "*"
gitlab = "*"
glob = "*"
serde = { version = "*", features = ["derive"] }
serde_json = "*"
url = "*"
