[package]
name = "pushkind_files"
version = "0.1.0"
edition = "2021"
publish = false

[dependencies]
uuid = { version = "*", features = ["v4"] }
actix-web = "*"
actix-cors = "*"
actix-files = "*"
actix-identity = "*"
actix-multipart = "*"
actix-session = { version = "*", features = ["cookie-session"] }
actix-web-flash-messages = { version = "*", features = ["cookies"] }
chrono = "*"
config = "*"
dotenvy = "*"
env_logger = "*"
futures-util = "*"
jsonwebtoken = "*"
lazy_static = "*"
log = "*"
serde = { version = "*", features = ["derive"] }
tera = "*"
thiserror = "*"
validator = { version = "*", features = ["derive"] }
