[package]
name = "vinyl"
version = "0.1.0"
edition = "2021"
publish = false

[dependencies]
dotenv = "0.15"
env_logger = { version = "0.10", default-features = false, features = ["humantime"] }
ethers = { version = "2.0", features = ["ws"] }
log = "0.4"
serde = "1"
serde_json = "1"
tokio = { version = "1", features = ["macros", "rt-multi-thread"] }
