[package]
name = "slime"
version = "0.1.0"
edition = "2021"
publish = false

[dependencies]
xmlparser = "=0.13.6"
mime_guess = "=2.0.5"
infer = "=0.22.0"
zip = { version = "=3.0.0", default-features = false, features = ["deflate"] }
epub = "=2.1.5"
tiny_http = "=0.12.0"
rinja = "=0.3.5"
log = "=0.4.34"
env_logger = "=0.11.11"
thiserror = "=2.0.21"
