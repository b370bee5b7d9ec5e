[package]
name = "koyuki"
version = "0.1.0"
edition = "2021"
publish = false

[dependencies]
regex = "1"
rand = "0.7"
chrono = "0.4"
serde = { version = "1", features = ["derive"] }
serde_json = "1"
log = "0.4"
env_logger = "0.7"
dotenv = "0.15"
async-std = { version = "1", features = ["attributes"] }
futures-util = "0.3"
surf = { version = "2", default-features = false, features = ["h1-client-rustls", "encoding"] }
redis = "*"
r2d2 = "0.8"
r2d2_redis = "0.14"
diesel = { version = "1.4", features = ["mysql", "r2d2", "chrono"] }
libc = "0.2"
