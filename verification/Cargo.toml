[package]
name = "fireplan_relay"
version = "0.1.0"
edition = "2021"
publish = false

[dependencies]
regex = "1"
serde_json = "1"
serde = { version = "1", features = ["derive"] }
serde_derive = "1"
actix-web = { version = "4", default-features = false, features = ["rustls-0_23", "macros"] }
chrono = "0.4"
reqwest = { version = "0.12", default-features = false, features = ["blocking", "json"] }
rustls = { version = "0.23", default-features = false, features = ["ring", "logging", "std", "tls12"] }
rustls-pemfile = "2"
toml = "0.8"
homedir = "0.3"
cmd_lib = "1"
simplelog = "0.12"
log = "0.4"
anyhow = "1"
