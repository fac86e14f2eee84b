[package]
name = "timely_query"
version = "0.1.0"
edition = "2021"
publish = false

[dependencies]
rand = "0.4"
futures = "0.1"
serde = { version = "1", features = ["derive"] }
rmp-serde = "1"
getopts = "0.2"
log = "0.4"
env_logger = "0.11"
