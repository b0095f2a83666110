[package]
name = "rust_myscript"
version = "0.1.0"
edition = "2021"
publish = false

[dependencies]
regex = "1"
serde = { version = "1", features = ["derive"] }
serde_derive = "1"
serde_json = "1"
toml = "*"
structopt = "0.3"
directories = "*"
dotenv = "0.15"
env_logger = "*"
log = "0.4"
reqwest = { version = "*", default-features = false, features = ["blocking"] }
failure = "0.1"
