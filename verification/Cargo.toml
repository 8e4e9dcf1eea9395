[package]
name = "wiki_core"
version = "0.1.0"
edition = "2021"
publish = false

[dependencies]
pulldown-cmark = "*"
actix-web = "*"
actix-files = "*"
env_logger = "*"
serde = { version = "*", features = ["derive"] }

[dev-dependencies]
urlencoding = "*"
