[package]
name = "tforge"
version = "0.1.0"
edition = "2021"
publish = false

[dependencies]
minijinja = "*"
dirs = "*"
anyhow = "*"
clap = { version = "*", features = ["derive"] }
serde = { version = "*", features = ["derive"] }
serde_json = "*"
toml = "*"
tokio = { version = "*", features = ["macros", "rt"] }
reqwest = { version = "*", default-features = false, features = ["json"] }
rig-core = "*"
indicatif = "*"
inquire = "*"
owo-colors = "*"

[dev-dependencies]
tempfile = "*"
duct = "*"
