[package]
name = "magnetite"
version = "0.1.0"
edition = "2021"
publish = false

[dependencies]
base64 = "0.13"
bcrypt = "0.13"
bytes = "1"
clap = { version = "3", features = ["derive"] }
log = "0.4"
pretty_env_logger = "0.4"
rand = "0.8"
siphasher = "0.3"
thiserror = "1"
tokio = { version = "1", features = ["macros", "rt-multi-thread"] }
tokio-postgres = "0.7"
warp = { version = "0.3", default-features = false }
