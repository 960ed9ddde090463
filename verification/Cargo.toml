[package]
name = "import_meta_env"
version = "0.1.0"
edition = "2021"
publish = false

[dependencies]
anyhow = "1"
clap = { version = "3", features = ["derive"] }
dotenv = "0.15"
glob = "0.3"
serde_json = "1"

[dev-dependencies]
regex = "1"
